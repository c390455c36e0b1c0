//! The Modbus side of the workbench: protocol, simulated server and polling client.
use crate::text;
use vstd::prelude::*;

pub mod adu;
pub mod axis;
pub mod chart;
pub mod commands;
pub mod csv;
pub mod datalog;
pub mod grid;
pub mod log;
pub mod master;
pub mod pdu;
pub mod scan;
pub mod sim;
pub mod slave;
pub mod span;
pub mod store;
pub mod traffic;
pub mod updater;
pub mod windows;

verus! {

/// One of the four data tables.
#[derive(Clone, Copy, Debug, PartialEq, Eq, Structural)]
pub enum Area {
    Coils,
    DiscreteInputs,
    HoldingRegisters,
    InputRegisters,
}

impl Area {
    /// The name of the table in exported files.
    pub open spec fn name(self) -> Seq<char> {
        match self {
            Area::Coils => "Coils"@,
            Area::DiscreteInputs => "DiscreteInputs"@,
            Area::HoldingRegisters => "HoldingRegisters"@,
            Area::InputRegisters => "InputRegisters"@,
        }
    }

    /// Whether the table holds bits.
    pub open spec fn holds_bits(self) -> bool {
        self == Area::Coils || self == Area::DiscreteInputs
    }

    /// The name of the table in exported files.
    pub fn csv_name(self) -> (r: &'static str)
        ensures
            r@ == self.name(),
    {
        match self {
            Area::Coils => "Coils",
            Area::DiscreteInputs => "DiscreteInputs",
            Area::HoldingRegisters => "HoldingRegisters",
            Area::InputRegisters => "InputRegisters",
        }
    }

    /// The table that a name in an imported file means, whatever its case.
    pub open spec fn named(s: Seq<char>) -> Option<Area> {
        let u = text::upper(text::trim(s));
        if u == "COILS"@ || u == "0X"@ {
            Some(Area::Coils)
        } else if u == "DISCRETEINPUTS"@ || u == "1X"@ {
            Some(Area::DiscreteInputs)
        } else if u == "INPUTREGISTERS"@ || u == "3X"@ {
            Some(Area::InputRegisters)
        } else if u == "HOLDINGREGISTERS"@ || u == "4X"@ {
            Some(Area::HoldingRegisters)
        } else {
            None
        }
    }

    /// The table that a name in an imported file means: its exported name, or its reference prefix.
    pub fn from_csv_name(s: &str) -> (r: Option<Area>)
        ensures
            r == Area::named(s@),
    {
        let trimmed = text::trimmed(s);
        let u = text::to_upper(trimmed.as_str());
        let u = u.as_str();
        if text::same_text(u, "COILS") || text::same_text(u, "0X") {
            Some(Area::Coils)
        } else if text::same_text(u, "DISCRETEINPUTS") || text::same_text(u, "1X") {
            Some(Area::DiscreteInputs)
        } else if text::same_text(u, "INPUTREGISTERS") || text::same_text(u, "3X") {
            Some(Area::InputRegisters)
        } else if text::same_text(u, "HOLDINGREGISTERS") || text::same_text(u, "4X") {
            Some(Area::HoldingRegisters)
        } else {
            None
        }
    }
}

/// The table that a function selection of the user interface means.
pub fn func_area_be(function: i32) -> (r: Area)
    ensures
        r == match function {
            0 | 4 | 6 => Area::Coils,
            1 => Area::DiscreteInputs,
            3 => Area::InputRegisters,
            _ => Area::HoldingRegisters,
        },
{
    match function {
        0 | 4 | 6 => Area::Coils,
        1 => Area::DiscreteInputs,
        3 => Area::InputRegisters,
        _ => Area::HoldingRegisters,
    }
}

/// How simulated values move.
#[derive(Clone, Copy, Debug, PartialEq, Eq, Structural)]
pub enum SimMode {
    Off,
    Increment,
    Decrement,
    Random,
    Toggle,
}

impl SimMode {
    /// The mode of a selection of the user interface.
    pub fn from_index(i: i32) -> (r: SimMode)
        ensures
            r == match i {
                1 => SimMode::Increment,
                2 => SimMode::Decrement,
                3 => SimMode::Random,
                4 => SimMode::Toggle,
                _ => SimMode::Off,
            },
    {
        match i {
            1 => SimMode::Increment,
            2 => SimMode::Decrement,
            3 => SimMode::Random,
            4 => SimMode::Toggle,
            _ => SimMode::Off,
        }
    }
}

/// The function that a write uses.
#[derive(Clone, Copy, Debug, PartialEq, Eq, Structural)]
pub enum WriteFunc {
    SingleCoil,
    SingleReg,
    MultiCoils,
    MultiRegs,
}

impl WriteFunc {
    /// The function of a selection of the user interface.
    pub fn from_index(i: i32) -> (r: WriteFunc)
        ensures
            r == match i {
                0 => WriteFunc::SingleCoil,
                2 => WriteFunc::MultiCoils,
                3 => WriteFunc::MultiRegs,
                _ => WriteFunc::SingleReg,
            },
    {
        match i {
            0 => WriteFunc::SingleCoil,
            2 => WriteFunc::MultiCoils,
            3 => WriteFunc::MultiRegs,
            _ => WriteFunc::SingleReg,
        }
    }
}

/// The simulation of a block of registers or bits.
#[derive(Clone, Copy, Debug)]
pub struct SimCfg {
    pub mode: SimMode,
    pub area: Area,
    pub address: u16,
    pub quantity: u16,
    pub step: u16,
    pub min: i64,
    pub max: i64,
    pub interval_ms: u64,
    /// The one address that moves, or negative for the whole block.
    pub target: i32,
}

/// An entry of the list of registers to write.
#[derive(Clone, Copy, Debug)]
pub struct WriteItem {
    pub address: u16,
    pub value: u16,
    /// Whether the value counts up with each cycle.
    pub inc: bool,
}

} // verus!
