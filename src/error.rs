use vstd::prelude::*;

verus! {

/// Every way in which a sign or verify run can fail. Each one ends the run.
#[derive(Debug, Clone, Copy, PartialEq, Eq, Structural)]
pub enum TokenError {
    /// No attached device carries the token's identity.
    DeviceNotFound,
    /// The token's serial port could not be opened.
    PortOpenFailure,
    /// The device did not answer within the deadline.
    ProtocolTimeout,
    /// The device answered with an `ERROR` line, or with a reply that cannot be read.
    ProtocolError,
    /// The signature envelope has a bad length, bad hex text or a bad layout.
    MalformedEnvelope,
    /// The device accepts messages too short for a sign or verify command.
    CapacityInsufficient,
    /// A target or sidecar file could not be read or written.
    FileIO,
    /// The digest in the envelope differs from the digest of the base file.
    HashMismatch,
    /// The envelope's timestamp is zero or outside the calendar's range.
    TimestampInvalid,
}

} // verus!
