//! Client side of the OBD-II vehicle protocol, spoken through an ELM327-style
//! adapter over a byte-oriented serial link.
//!
//! The library is the protocol engine: [`framer`] turns the adapter's byte
//! stream into lines and replies, [`device`] and [`session`] hold what is sent
//! to the adapter and how its answers are checked, [`interface`] turns reply
//! text into one payload per ECU, and [`commands`] and [`signals`] decode
//! payloads into values. Moving bytes over a real link is left to the caller.
use vstd::prelude::*;

pub mod commands;
pub mod device;
pub mod error;
pub mod framer;
pub mod interface;
pub mod session;
pub mod signals;
pub mod text;

pub use commands::{Dtc, DtcsInfo};
pub use error::{DeviceError, Error};
pub use interface::Obd2;
pub use signals::{OxygenSensorData, Scaled};

verus! {

/// Byte that the adapter prints when it is ready for the next command.
pub const PROMPT: u8 = 0x3e;

} // verus!
