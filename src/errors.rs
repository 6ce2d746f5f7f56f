use vstd::prelude::*;

verus! {

/// Failures of the codec. Each one is local to a single message or frame.
#[derive(Debug, Clone, Copy, PartialEq, Eq, Structural)]
pub enum BgpError {
    /// Fewer bytes are available than a length field declares.
    Truncated,
    /// The header's type byte is not one of Open, Update, Notification, Keepalive.
    UnknownMessageType,
    /// A prefix length above 32 bits.
    InvalidPrefixLength,
    /// An attribute value too long for the length field its flags select.
    LengthFlagMismatch,
    /// Optional Open parameters or Notification encoding.
    Unimplemented,
    /// A header length outside 19..=4096, or a message that would not fit in 4096 bytes.
    BadMessageLength,
}

} // verus!
