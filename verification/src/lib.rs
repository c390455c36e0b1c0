//! Verified core of a CAN bus and Modbus workbench.

pub mod bytes;
pub mod can;
pub mod ends;
pub mod laws;
pub mod lists;
pub mod modbus;
pub mod order;
pub mod ratio;
pub mod table;
pub mod text;
pub mod workbench;
