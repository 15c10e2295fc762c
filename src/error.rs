use vstd::prelude::*;

use crate::address::ParseBDAddrError;
use uuid::Error as UuidError;

verus! {

/// An error parsing UUID text, as reported by the `uuid` crate.
#[verifier::external_type_specification]
#[verifier::external_body]
pub struct ExUuidError(UuidError);

/// The closed set of failures surfaced by the central and peripheral contracts.
#[derive(Debug)]
pub enum Error {
    /// The operating system denied access to the radio.
    PermissionDenied,
    /// A lookup found no peripheral with the requested identity.
    DeviceNotFound,
    /// The operation needs a connected peripheral.
    NotConnected,
    /// The backend or the device lacks the capability.
    NotSupported(String),
    /// A native call did not complete within its deadline.
    TimedOut(std::time::Duration),
    /// UUID text could not be parsed.
    Uuid(UuidError),
    /// Address text could not be parsed.
    InvalidBDAddr(ParseBDAddrError),
    /// An unclassified native failure.
    Other(String),
}

} // verus!
