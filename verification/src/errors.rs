use vstd::prelude::*;

verus! {

/// Ways in which a received IPv4 header can be malformed.
///
/// Both conditions are recoverable: the caller is expected to drop the frame
/// and keep receiving, never to abort.
#[derive(Clone, Copy, Debug, PartialEq, Eq, Structural)]
pub enum TCPError {
    /// The header-length nibble is below 5, so the wire data claims a header
    /// shorter than the 20-byte minimum of RFC 791.
    HeaderLengthInvalid,
    /// The declared total length exceeds the bytes actually available in the
    /// capture buffer.
    FrameTruncated,
}

} // verus!
