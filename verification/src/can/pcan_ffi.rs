//! Constants and message layouts of the PCAN-Basic interface.
use vstd::prelude::*;

verus! {

/// A classical CAN message.
#[derive(Clone, Copy, Debug)]
pub struct TPCANMsg {
    pub id: u32,
    pub msgtype: u8,
    pub len: u8,
    pub data: [u8; 8],
}

/// The receive time of a classical CAN message.
#[derive(Clone, Copy, Debug)]
pub struct TPCANTimestamp {
    pub millis: u32,
    pub millis_overflow: u16,
    pub micros: u16,
}

/// A CAN FD message.
#[derive(Clone, Copy, Debug)]
pub struct TPCANMsgFD {
    pub id: u32,
    pub msgtype: u8,
    pub dlc: u8,
    pub data: [u8; 64],
}

/// One attached channel as the driver lists it.
#[derive(Clone, Copy, Debug)]
pub struct TPCANChannelInformation {
    pub channel_handle: u16,
    pub device_type: u8,
    pub controller_number: u8,
    pub device_features: u32,
    pub device_name: [i8; 33],
    pub device_id: u32,
    pub channel_condition: u32,
}

pub const PCAN_NONEBUS: u16 = 0x00;

pub const PCAN_BAUD_125K: u16 = 0x031C;

pub const PCAN_BAUD_250K: u16 = 0x011C;

pub const PCAN_BAUD_500K: u16 = 0x001C;

pub const PCAN_BAUD_1M: u16 = 0x0014;

pub const PCAN_ERROR_OK: u32 = 0x0000_0000;

pub const PCAN_ERROR_QRCVEMPTY: u32 = 0x0000_0020;

pub const PCAN_ERROR_OVERRUN: u32 = 0x0000_0002;

pub const PCAN_ERROR_BUSLIGHT: u32 = 0x0000_0004;

pub const PCAN_ERROR_BUSHEAVY: u32 = 0x0000_0008;

pub const PCAN_ERROR_BUSOFF: u32 = 0x0000_0010;

pub const PCAN_ERROR_QOVERRUN: u32 = 0x0000_0040;

pub const PCAN_ERROR_NODRIVER: u32 = 0x0000_0200;

pub const PCAN_ERROR_ILLHW: u32 = 0x0000_1400;

pub const PCAN_ERROR_INITIALIZE: u32 = 0x0400_0000;

pub const PCAN_ATTACHED_CHANNELS_COUNT: u8 = 0x2A;

pub const PCAN_ATTACHED_CHANNELS: u8 = 0x2B;

pub const PCAN_FEATURE_FD_CAPABLE: u32 = 0x01;

pub const MSGTYPE_STANDARD: u8 = 0x00;

pub const MSGTYPE_RTR: u8 = 0x01;

pub const MSGTYPE_EXTENDED: u8 = 0x02;

pub const MSGTYPE_FD: u8 = 0x04;

pub const MSGTYPE_BRS: u8 = 0x08;

pub const MSGTYPE_ERRFRAME: u8 = 0x40;

pub const MSGTYPE_STATUS: u8 = 0x80;

} // verus!
