//! The ways a round can fail.

use vstd::prelude::*;

verus! {

#[derive(Clone, Copy, Debug, PartialEq, Eq, Structural)]
pub enum ProtocolError {
    /// Fewer contributions than the threshold.
    ThresholdNotMet,
    /// A signed key or an alive-set signature does not check.
    SignatureInvalid,
    /// A sender has no registered signing key.
    UnknownSigner,
    /// A decrypted share names another sender or recipient than expected.
    ShareTagMismatch,
    /// A secret box does not open, or opens to bytes that are no share record.
    DecryptionFailed,
    /// Shares are missing, of the wrong kind, malformed or inconsistent, or a
    /// key needed to rebuild a mask is missing.
    SecretReconstructionFailed,
    /// A primitive failed (the random source), or secret sharing cannot serve
    /// the number of users (fewer than two, or over 255).
    PrimitiveFailed,
    /// A message does not have the form its round asks for.
    MalformedMessage,
    /// A message was delivered for a round the machine is not in.
    RoundMismatch,
}

} // verus!
