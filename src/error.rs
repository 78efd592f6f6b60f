//! Errors of the library.
use crate::device;
use vstd::prelude::*;

verus! {

/// An error with OBD-II communication.
#[derive(Debug, PartialEq, Eq)]
pub enum Error {
    /// The adapter or the link to it failed.
    Device(DeviceError),
    /// Some part of the response, named by the text (`"length"` of one ECU's
    /// payload or `"count"` of responding ECUs), was not the expected size:
    /// the expected size, then the actual one.
    IncorrectResponseLength(&'static str, usize, usize),
    /// The adapter gave no complete reply in time.
    NoResponse,
    /// The reply held no response line at all.
    NoEcuResponses,
    /// A token of the reply is not a two-digit hexadecimal byte.
    InvalidHex,
    /// A line of a multi-line reply does not carry the next line index.
    LineOutOfOrder,
    /// A response does not start with the service (and PID) that was requested.
    UnexpectedEnvelope,
    /// Text received from the vehicle is not valid UTF-8.
    InvalidText,
    /// A response to the stored-DTC request is not in the supported format.
    InvalidDtcList,
}

/// An error of the adapter or of the link to it.
#[derive(Debug, PartialEq, Eq)]
pub struct DeviceError(pub device::Error);

} // verus!
