//! Classifier for the 4-byte envelope that a capture interface prepends to
//! every frame: 2 opaque flag bytes followed by a big-endian link-layer
//! protocol identifier, then the raw network-layer datagram.

use vstd::prelude::*;
use vstd::slice::slice_subrange;

verus! {

/// Outcome of reading the envelope's link-layer identifier. An identifier
/// other than the IPv4 one is not an error, only a routing decision for the
/// caller; the raw value is kept for diagnostics.
#[derive(Clone, Copy, Debug, PartialEq, Eq, Structural)]
pub enum LinkLayer {
    IPv4,
    Other(u16),
}

/// The big-endian link-layer protocol identifier in envelope octets 2
/// and 3.
pub open spec fn spec_link_protocol(b: Seq<u8>) -> int {
    (b[2] as int) * 256 + (b[3] as int)
}

/// Identifier 0x0800 marks an IPv4 payload; every other value is handed
/// back raw.
pub open spec fn spec_classify_frame(b: Seq<u8>) -> LinkLayer {
    if spec_link_protocol(b) == 0x0800 {
        LinkLayer::IPv4
    } else {
        LinkLayer::Other(spec_link_protocol(b) as u16)
    }
}

/// Reads the envelope of a captured frame and decides whether the enclosed
/// payload is an IPv4 datagram. The two flag bytes are not interpreted.
pub fn classify_frame(frame: &[u8]) -> (r: LinkLayer)
    requires
        frame@.len() >= 4,
    ensures
        r == spec_classify_frame(frame@),
{
    let id: u16 = (frame[2] as u16) * 256 + (frame[3] as u16);
    if id == 0x0800 {
        LinkLayer::IPv4
    } else {
        LinkLayer::Other(id)
    }
}

/// The enclosed network-layer datagram: every byte after the envelope.
pub fn payload<'a>(frame: &'a [u8]) -> (r: &'a [u8])
    requires
        frame@.len() >= 4,
    ensures
        r@ == frame@.subrange(4, frame@.len() as int),
{
    slice_subrange(frame, 4, frame.len())
}

} // verus!
