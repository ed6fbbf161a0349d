//! The error taxonomy shared by the codec and the session layer.

use vstd::prelude::*;

verus! {

/// Errors surfaced by the codec and the client session.
#[derive(Clone, Copy, Debug, PartialEq, Eq, Structural)]
pub enum MqttError {
    /// Wire-format violation on read: short packet, invalid
    /// variable-byte integer, invalid UTF-8, unknown property id, or a
    /// remaining-length mismatch. Fatal for the current session.
    Malformed,
    /// A well-formed packet in the wrong context: a CONNACK after the
    /// handshake, an acknowledgement for an unknown packet identifier,
    /// or a reason code of 0x80 or above from the broker.
    Protocol,
    /// Underlying socket read or write failure. Fatal to the session.
    Transport,
    /// Deadline expired on an acknowledgement wait. Fatal to that
    /// request only; the session continues.
    Timeout,
    /// The session is no longer connected; returned synchronously for
    /// new requests and used to cancel outstanding waiters.
    SessionClosed,
    /// Caller-side misuse: a wildcard in a publish topic, an empty
    /// subscribe filter list, or a value too large for its wire field.
    BadArgument,
}

} // verus!
