//! Hardware wallet support.

pub mod apdu;
pub mod base64;
pub mod ble;
pub mod device;
pub mod frames;
pub mod keys;
pub mod path;
pub mod pstx;
pub mod reader;
pub mod session;
pub mod tx;
pub mod usb;
pub mod wallet;
