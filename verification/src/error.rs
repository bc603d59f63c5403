use vstd::prelude::*;

verus! {

/// Errors surfaced by the codec. A failure of the underlying transport is
/// the caller's concern and is reported by whatever drives the stream, not
/// by the codec itself.
#[derive(Debug, PartialEq, Eq)]
pub enum X11Error {
    /// Fewer bytes were available than a fixed-size field or a
    /// declared-length variable field requires.
    IncompleteMessage,
    /// The server's handshake status byte was not Success; carries the
    /// status byte and any reason text the server supplied.
    HandshakeRejected { status: u8, reason: Vec<u8> },
    /// The vendor bytes of the capability announcement are not valid text.
    MalformedVendorString,
    /// The resource id allocator has handed out every id the mask allows.
    IdSpaceExhausted,
    /// A non-empty authorization name or data was supplied; authorization
    /// payloads are not implemented and must be empty.
    UnsupportedAuthorization,
}

} // verus!
