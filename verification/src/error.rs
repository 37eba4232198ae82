//! The error taxonomy of the library: responder status codes, malformed
//! wire data, and transport failures.
use vstd::prelude::*;

verus! {

/// A PTP response code: a standard constant or a vendor's own.
pub type ResponseCode = u16;

/// A PTP operation code: a standard constant or a vendor's own.
pub type CommandCode = u16;

/// Why the underlying bulk transport failed.
#[derive(Debug, Clone, Copy, PartialEq, Eq, Structural)]
pub enum TransportError {
    /// The device did not respond within the timeout interval.
    Timeout,
    /// The device has been disconnected.
    NoDevice,
    /// Any other transport-level failure.
    Other,
}

/// Why a byte buffer violated the codec contract.
#[derive(Debug, Clone, Copy, PartialEq, Eq, Structural)]
pub enum MalformedKind {
    /// The buffer ended before a field was complete.
    UnexpectedEnd,
    /// A PTP string held code units that are not valid UTF-16.
    InvalidUtf16,
    /// A container carried a kind outside Command/Data/Response/Event.
    InvalidContainerKind,
    /// A container length field was below the 12-byte header size.
    ContainerTooShort,
    /// A whole-payload parser left residual bytes.
    TrailingBytes,
    /// A string has too many UTF-16 code units for the one-byte length.
    StringTooLong,
    /// An array has more elements than the 32-bit length prefix can count.
    ArrayTooLong,
}

/// An error in a PTP command.
#[derive(Debug, Clone, Copy, PartialEq, Eq, Structural)]
pub enum Error {
    /// The responder returned a status code other than Ok, either a
    /// constant in StandardResponseCode or a vendor-defined code.
    Response(u16),
    /// Data received was malformed.
    Malformed(MalformedKind),
    /// The underlying USB transport failed.
    Transport(TransportError),
}

} // verus!
