//! Error taxonomy of the tunnel core.

use vstd::prelude::*;

verus! {

/// Every way a build, read or write on the encrypted channel can fail.
///
/// All of these are fatal to the connection they occur on: nothing is retried
/// here, and after an `AuthenticationFailure` or `ReplayRejected` no further
/// plaintext is ever delivered.
#[derive(Clone, Copy, Debug, PartialEq, Eq, Structural)]
pub enum SsError {
    /// The cipher identifier is not one of the supported configuration strings.
    UnsupportedCipher,
    /// The peer's connection salt was already seen within the retention window.
    ReplayRejected,
    /// An AEAD tag did not verify on a length or payload block.
    AuthenticationFailure,
    /// A decoded chunk length exceeds the protocol maximum, or the framing is
    /// otherwise malformed.
    ProtocolViolation,
    /// The datagram variant of the protocol was requested; it is not
    /// implemented at this layer.
    NotImplemented,
}

} // verus!
