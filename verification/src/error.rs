//! The failures that the layer reports.

use vstd::prelude::*;

verus! {

/// Why a device could not be opened.
#[derive(Clone, Copy, Debug, PartialEq, Eq, Structural)]
pub enum OpenFailure {
    /// No known device has these arguments.
    NotFound,
    /// More than one known device has these arguments.
    Ambiguous,
    /// The operating system denied access to the device.
    PermissionDenied,
    /// The device's firmware does not match the driver.
    FirmwareMismatch,
    /// The hardware refused to initialise for another reason.
    Rejected,
}

/// A failure of the layer.
#[derive(Clone, Copy, Debug, PartialEq, Eq, Structural)]
pub enum HalError {
    /// No backend is registered, so nothing can be discovered.
    Discovery,
    /// The device could not be opened.
    DeviceOpen(OpenFailure),
    /// The device is held by another handle, or by another process.
    DeviceBusy,
    /// The channel index is not below the channel count of its direction.
    InvalidChannel,
    /// The frequency lies outside the channel's ranges and the backend
    /// rejects such a request.
    UnsupportedFrequency,
    /// The requested sample format is not offered by every requested
    /// channel, or cannot be converted from or to the native format.
    FormatNegotiation,
    /// A requested channel is bound to another session.
    ChannelConflict,
    /// The session is active already.
    AlreadyActive,
    /// The session is not active.
    NotActive,
    /// The driver dropped received samples; the caller may resynchronise
    /// and try again.
    Overflow,
    /// The driver ran out of samples to transmit; the caller may
    /// resynchronise and try again.
    Underflow,
    /// The backend cannot keep several channels sample-aligned.
    SynchronizationUnsupported,
    /// The session is used from two places at once: something was asked of
    /// it while a transfer was in progress, or a transfer was ended while
    /// none was.
    ConcurrentAccess,
    /// The device disappeared or its driver failed; the session is unusable.
    DeviceLost,
    /// A read was asked of a transmit session, or a write of a receive
    /// session.
    WrongDirection,
    /// No session goes by this identifier, or it was released.
    SessionReleased,
}

impl HalError {
    /// Whether the caller may retry after the failure.
    pub open spec fn recoverable(self) -> bool {
        self == HalError::Overflow || self == HalError::Underflow
    }

    /// Whether the caller may retry after the failure: true of an overflow
    /// and of an underflow only.
    pub fn is_recoverable(&self) -> (b: bool)
        ensures
            b == self.recoverable(),
    {
        match self {
            HalError::Overflow => true,
            HalError::Underflow => true,
            _ => false,
        }
    }
}

} // verus!
