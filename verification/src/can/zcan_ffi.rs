//! Constants and record layouts of the ZLG interface.
use vstd::prelude::*;

verus! {

/// Marks an extended identifier.
pub const EFF: u32 = 0x8000_0000;

/// Marks a remote frame.
pub const RTR: u32 = 0x4000_0000;

pub const ID_MASK: u32 = 0x1FFF_FFFF;

pub const TYPE_CAN: u8 = 0;

pub const TYPE_CANFD: u8 = 1;

pub const ERROR_CAN_OVERFLOW: u32 = 0x0001;

pub const ERROR_CAN_ERRALARM: u32 = 0x0002;

pub const ERROR_CAN_PASSIVE: u32 = 0x0004;

pub const ERROR_CAN_LOSE: u32 = 0x0008;

pub const ERROR_CAN_BUSERR: u32 = 0x0010;

pub const ERROR_CAN_BUSOFF: u32 = 0x0020;

pub const ERROR_CAN_BUFFER_OVERFLOW: u32 = 0x0040;

pub const ERROR_DEVICEOPENED: u32 = 0x0100;

pub const ERROR_DEVICEOPEN: u32 = 0x0200;

pub const ERROR_DEVICENOTOPEN: u32 = 0x0400;

pub const ERROR_BUFFEROVERFLOW: u32 = 0x0800;

pub const ERROR_DEVICENOTEXIST: u32 = 0x1000;

pub const ERROR_LOADKERNELDLL: u32 = 0x2000;

pub const ERROR_CMDFAILED: u32 = 0x4000;

pub const ERROR_BUFFERCREATE: u32 = 0x8000;

/// What a device says about itself.
#[derive(Clone, Copy, Debug)]
pub struct ZcanDeviceInfo {
    pub hw_version: u16,
    pub fw_version: u16,
    pub driver_version: u16,
    pub interface_version: u16,
    pub irq_num: u16,
    pub can_num: u8,
    pub serial_number: [u8; 20],
    pub hardware_type: [u8; 40],
    pub reserved: [u16; 4],
}

/// A classical frame.
#[derive(Clone, Copy, Debug)]
pub struct CanFrameC {
    pub can_id: u32,
    pub can_dlc: u8,
    pub pad: u8,
    pub res0: u8,
    pub res1: u8,
    pub data: [u8; 8],
}

/// A CAN FD frame.
#[derive(Clone, Copy, Debug)]
pub struct CanfdFrameC {
    pub can_id: u32,
    pub len: u8,
    pub flags: u8,
    pub res0: u8,
    pub res1: u8,
    pub data: [u8; 64],
}

#[derive(Clone, Copy, Debug)]
pub struct ZcanTransmitData {
    pub frame: CanFrameC,
    pub transmit_type: u32,
}

#[derive(Clone, Copy, Debug)]
pub struct ZcanTransmitFdData {
    pub frame: CanfdFrameC,
    pub transmit_type: u32,
}

#[derive(Clone, Copy, Debug)]
pub struct ZcanReceiveData {
    pub frame: CanFrameC,
    pub timestamp: u64,
}

#[derive(Clone, Copy, Debug)]
pub struct ZcanReceiveFdData {
    pub frame: CanfdFrameC,
    pub timestamp: u64,
}

/// Settings of a classical channel.
#[derive(Clone, Copy, Debug)]
pub struct ZcanClassicInitConfig {
    pub acc_code: u32,
    pub acc_mask: u32,
    pub reserved: u32,
    pub filter: u8,
    pub timing0: u8,
    pub timing1: u8,
    pub mode: u8,
}

/// The settings record of a channel, as the bytes that the driver reads.
#[derive(Clone, Copy, Debug)]
pub struct ZcanChannelConfig {
    pub raw: [u8; 28],
}

/// What a channel is initialised with.
#[derive(Clone, Copy, Debug)]
pub struct ZcanChannelInitConfig {
    pub can_type: u32,
    pub config: ZcanChannelConfig,
}

/// The number that four bytes write, the least significant first.
pub open spec fn le_value(bytes: Seq<u8>, at: int) -> int {
    bytes[at] + 0x100 * bytes[at + 1] + 0x1_0000 * bytes[at + 2] + 0x100_0000 * bytes[at + 3]
}

/// The byte of a number that stands at `place`, the least significant at zero.
pub open spec fn le_byte(n: u32, place: int) -> u8 {
    if place == 0 {
        (n % 0x100) as u8
    } else if place == 1 {
        (n / 0x100 % 0x100) as u8
    } else if place == 2 {
        (n / 0x1_0000 % 0x100) as u8
    } else {
        (n / 0x100_0000) as u8
    }
}

/// The four bytes of a number, the least significant first.
pub open spec fn le_bytes(n: u32) -> Seq<u8> {
    seq![le_byte(n, 0), le_byte(n, 1), le_byte(n, 2), le_byte(n, 3)]
}

impl ZcanChannelConfig {
    /// A record that is all zeros.
    pub fn empty() -> (r: ZcanChannelConfig)
        ensures
            r.raw@ == Seq::new(28, |i: int| 0u8),
    {
        let raw: [u8; 28] = [0;28];
        assert(raw@ =~= Seq::new(28, |i: int| 0u8));
        ZcanChannelConfig { raw }
    }

    /// What the record says when it is read as classical settings.
    pub open spec fn says_classic(&self, c: ZcanClassicInitConfig) -> bool {
        &&& le_value(self.raw@, 0) == c.acc_code
        &&& le_value(self.raw@, 4) == c.acc_mask
        &&& le_value(self.raw@, 8) == c.reserved
        &&& self.raw@[12] == c.filter
        &&& self.raw@[13] == c.timing0
        &&& self.raw@[14] == c.timing1
        &&& self.raw@[15] == c.mode
    }

    /// The record of classical settings: sixteen bytes, then zeros.
    pub fn from_classic(c: ZcanClassicInitConfig) -> (r: ZcanChannelConfig)
        ensures
            r.says_classic(c),
            forall|i: int| 16 <= i < 28 ==> r.raw@[i] == 0,
    {
        let mut raw: [u8; 28] = [0;28];
        put_le(&mut raw, 0, c.acc_code);
        put_le(&mut raw, 4, c.acc_mask);
        put_le(&mut raw, 8, c.reserved);
        raw[12] = c.filter;
        raw[13] = c.timing0;
        raw[14] = c.timing1;
        raw[15] = c.mode;
        ZcanChannelConfig { raw }
    }

    /// Reads the record as classical settings.
    pub fn classic(&self) -> (r: ZcanClassicInitConfig)
        ensures
            self.says_classic(r),
    {
        ZcanClassicInitConfig {
            acc_code: get_le(&self.raw, 0),
            acc_mask: get_le(&self.raw, 4),
            reserved: get_le(&self.raw, 8),
            filter: self.raw[12],
            timing0: self.raw[13],
            timing1: self.raw[14],
            mode: self.raw[15],
        }
    }
}

/// Classical settings come back from the record that they were written to.
pub proof fn law_classic_settings_round_trip(
    record: ZcanChannelConfig,
    written: ZcanClassicInitConfig,
    read: ZcanClassicInitConfig,
)
    requires
        record.says_classic(written),
        record.says_classic(read),
    ensures
        read == written,
{
}

fn put_le(raw: &mut [u8; 28], at: usize, n: u32)
    requires
        at + 4 <= 28,
    ensures
        le_value(final(raw)@, at as int) == n,
        forall|i: int| 0 <= i < 28 && !(at <= i < at + 4) ==> final(raw)@[i] == old(raw)@[i],
{
    raw[at] = (n % 0x100) as u8;
    raw[at + 1] = (n / 0x100 % 0x100) as u8;
    raw[at + 2] = (n / 0x1_0000 % 0x100) as u8;
    raw[at + 3] = (n / 0x100_0000) as u8;
}

fn get_le(raw: &[u8; 28], at: usize) -> (r: u32)
    requires
        at + 4 <= 28,
    ensures
        r == le_value(raw@, at as int),
{
    raw[at] as u32 + 0x100 * raw[at + 1] as u32 + 0x1_0000 * raw[at + 2] as u32 + 0x100_0000
        * raw[at + 3] as u32
}

/// The last error of a channel.
#[derive(Clone, Copy, Debug)]
pub struct ZcanChannelErrInfo {
    pub error_code: u32,
    pub passive_err_data: [u8; 3],
    pub ar_lost_err_data: u8,
}

/// The registers of a channel's controller.
#[derive(Clone, Copy, Debug)]
pub struct ZcanChannelStatus {
    pub err_interrupt: u8,
    pub reg_mode: u8,
    pub reg_status: u8,
    pub reg_al_capture: u8,
    pub reg_ec_capture: u8,
    pub reg_ew_limit: u8,
    pub reg_re_counter: u8,
    pub reg_te_counter: u8,
    pub reserved: u32,
}

impl Default for ZcanChannelErrInfo {
    fn default() -> (r: ZcanChannelErrInfo)
        ensures
            r.error_code == 0,
            r.passive_err_data@ == seq![0u8, 0u8, 0u8],
            r.ar_lost_err_data == 0,
    {
        let passive_err_data: [u8; 3] = [0;3];
        assert(passive_err_data@ =~= seq![0u8, 0u8, 0u8]);
        ZcanChannelErrInfo { error_code: 0, passive_err_data, ar_lost_err_data: 0 }
    }
}

/// Registers that are all zero.
pub open spec fn zero_status() -> ZcanChannelStatus {
    ZcanChannelStatus {
        err_interrupt: 0,
        reg_mode: 0,
        reg_status: 0,
        reg_al_capture: 0,
        reg_ec_capture: 0,
        reg_ew_limit: 0,
        reg_re_counter: 0,
        reg_te_counter: 0,
        reserved: 0,
    }
}

impl Default for ZcanChannelStatus {
    fn default() -> (r: ZcanChannelStatus)
        ensures
            r == zero_status(),
    {
        ZcanChannelStatus {
            err_interrupt: 0,
            reg_mode: 0,
            reg_status: 0,
            reg_al_capture: 0,
            reg_ec_capture: 0,
            reg_ew_limit: 0,
            reg_re_counter: 0,
            reg_te_counter: 0,
            reserved: 0,
        }
    }
}

} // verus!
