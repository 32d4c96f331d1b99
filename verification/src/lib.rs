//! Decoder for IPv4 headers read off a raw capture buffer: typed accessors
//! for every header field, validation of the declared header length, the
//! variable-length options region, and the RFC 1071 one's-complement header
//! checksum, together with small classifiers for the link-layer envelope and
//! the transport protocol number.

pub mod checksum;
pub mod errors;
pub mod frame;
pub mod ipv4;
pub mod protocol;
