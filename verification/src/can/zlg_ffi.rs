//! Record layouts of the VCI interface that GCAN and ZHCX adapters share.
use vstd::prelude::*;

verus! {

/// Settings of a channel.
#[allow(non_camel_case_types)]
#[derive(Clone, Copy, Debug)]
pub struct VCI_INIT_CONFIG {
    pub acc_code: u32,
    pub acc_mask: u32,
    pub reserved: u32,
    pub filter: u8,
    pub timing0: u8,
    pub timing1: u8,
    pub mode: u8,
}

/// A message on its way in or out.
#[allow(non_camel_case_types)]
#[derive(Clone, Copy, Debug)]
pub struct VCI_CAN_OBJ {
    pub id: u32,
    pub time_stamp: u32,
    pub time_flag: u8,
    pub send_type: u8,
    pub remote_flag: u8,
    pub extern_flag: u8,
    pub data_len: u8,
    pub data: [u8; 8],
    pub reserved: [u8; 3],
}

/// The registers of a channel's controller.
#[allow(non_camel_case_types)]
#[derive(Clone, Copy, Debug)]
pub struct VCI_CAN_STATUS {
    pub err_interrupt: u8,
    pub reg_mode: u8,
    pub reg_status: u8,
    pub reg_al_capture: u8,
    pub reg_ec_capture: u8,
    pub reg_ew_limit: u8,
    pub reg_re_counter: u8,
    pub reg_te_counter: u8,
    pub reserved: u32,
}

impl Default for VCI_CAN_STATUS {
    fn default() -> (r: VCI_CAN_STATUS)
        ensures
            r == (VCI_CAN_STATUS {
                err_interrupt: 0,
                reg_mode: 0,
                reg_status: 0,
                reg_al_capture: 0,
                reg_ec_capture: 0,
                reg_ew_limit: 0,
                reg_re_counter: 0,
                reg_te_counter: 0,
                reserved: 0,
            }),
    {
        VCI_CAN_STATUS {
            err_interrupt: 0,
            reg_mode: 0,
            reg_status: 0,
            reg_al_capture: 0,
            reg_ec_capture: 0,
            reg_ew_limit: 0,
            reg_re_counter: 0,
            reg_te_counter: 0,
            reserved: 0,
        }
    }
}

/// What a device says about itself.
#[allow(non_camel_case_types)]
#[derive(Clone, Copy, Debug)]
pub struct VCI_BOARD_INFO {
    pub hw_version: u16,
    pub fw_version: u16,
    pub driver_version: u16,
    pub interface_version: u16,
    pub irq_num: u16,
    pub can_num: u8,
    pub serial_number: [u8; 20],
    pub hardware_type: [u8; 40],
    pub reserved: [u16; 4],
}

impl Default for VCI_BOARD_INFO {
    fn default() -> (r: VCI_BOARD_INFO)
        ensures
            r.hw_version == 0,
            r.fw_version == 0,
            r.driver_version == 0,
            r.interface_version == 0,
            r.irq_num == 0,
            r.can_num == 0,
            r.serial_number@ == Seq::new(20, |i: int| 0u8),
            r.hardware_type@ == Seq::new(40, |i: int| 0u8),
            r.reserved@ == Seq::new(4, |i: int| 0u16),
    {
        let serial_number: [u8; 20] = [0;20];
        let hardware_type: [u8; 40] = [0;40];
        let reserved: [u16; 4] = [0;4];
        assert(serial_number@ =~= Seq::new(20, |i: int| 0u8));
        assert(hardware_type@ =~= Seq::new(40, |i: int| 0u8));
        assert(reserved@ =~= Seq::new(4, |i: int| 0u16));
        VCI_BOARD_INFO {
            hw_version: 0,
            fw_version: 0,
            driver_version: 0,
            interface_version: 0,
            irq_num: 0,
            can_num: 0,
            serial_number,
            hardware_type,
            reserved,
        }
    }
}

} // verus!
