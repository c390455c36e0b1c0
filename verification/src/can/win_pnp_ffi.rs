//! Record layout and flags of the Windows device enumeration.
use vstd::prelude::*;

verus! {

pub const DIGCF_PRESENT: u32 = 0x0000_0002;

pub const DIGCF_ALLCLASSES: u32 = 0x0000_0004;

/// One entry of a device enumeration.
#[allow(non_camel_case_types)]
#[derive(Clone, Copy, Debug)]
pub struct SP_DEVINFO_DATA {
    pub cb_size: u32,
    pub class_guid: [u8; 16],
    pub dev_inst: u32,
    pub reserved: usize,
}

} // verus!
