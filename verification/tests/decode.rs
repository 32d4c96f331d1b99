use ipv4_decode::errors::TCPError;
use ipv4_decode::frame::{classify_frame, payload, LinkLayer};
use ipv4_decode::ipv4::IPv4Header;
use ipv4_decode::protocol::Protocol;

/// 20-byte header with no options: version 4, IHL 5, total length 20,
/// TTL 64, protocol UDP, embedded checksum field 0xB861, 10.0.0.1 -> 10.0.0.2.
const KNOWN_VECTOR: [u8; 20] = [
    0x45, 0x00, 0x00, 0x14, 0x00, 0x00, 0x40, 0x00, 0x40, 0x11, 0xB8, 0x61, 0x0A, 0x00, 0x00,
    0x01, 0x0A, 0x00, 0x00, 0x02,
];

#[test]
fn known_vector_fields() {
    let h = IPv4Header::new(&KNOWN_VECTOR[..]);
    assert_eq!(h.version(), 4);
    assert_eq!(h.ihl(), Ok(5));
    assert_eq!(h.total_len(), 20);
    assert_eq!(h.ttl(), 64);
    assert_eq!(h.protocol(), Protocol::UDP);
    assert_eq!(h.ip_header_checksum(), 0xB861);
    assert_eq!(h.source_address_raw(), &[10, 0, 0, 1]);
    assert_eq!(h.destination_address_raw(), &[10, 0, 0, 2]);
    assert_eq!(h.options(), &[] as &[u8]);
    assert_eq!(h.validate(), Ok(()));
    // the header-length/total-length invariant holds for this vector
    assert!(5 * 4 <= h.total_len());
    // the checksum that belongs to these fields; 0xB861 is what sits in the
    // field, not what the sum of this particular vector yields
    assert_eq!(h.calculate_checksum(), 0x26D7);
    assert!(!h.verify_checksum());
}

/// 20-byte header whose embedded checksum 0xB861 really is the sum of its
/// fields: total length 0x73, TTL 64, UDP, 192.168.0.1 -> 192.168.0.199.
const CONSISTENT_VECTOR: [u8; 20] = [
    0x45, 0x00, 0x00, 0x73, 0x00, 0x00, 0x40, 0x00, 0x40, 0x11, 0xB8, 0x61, 0xC0, 0xA8, 0x00,
    0x01, 0xC0, 0xA8, 0x00, 0xC7,
];

#[test]
fn known_vector_verifies() {
    let h = IPv4Header::new(&CONSISTENT_VECTOR[..]);
    assert_eq!(h.ihl(), Ok(5));
    assert_eq!(h.protocol(), Protocol::UDP);
    assert_eq!(h.ip_header_checksum(), 0xB861);
    assert_eq!(h.calculate_checksum(), 0xB861);
    assert!(h.verify_checksum());
}

fn buffer_with_ihl(nibble: u8, len: usize) -> Vec<u8> {
    let mut buf = vec![0u8; len];
    buf[0] = 0x40 | nibble;
    buf
}

#[test]
fn options_length_per_ihl() {
    for nibble in 5u8..=15 {
        let hlen = (nibble as usize) * 4;
        let mut buf = buffer_with_ihl(nibble, hlen);
        // declare total length equal to the header length
        buf[2] = 0;
        buf[3] = hlen as u8;
        let h = IPv4Header::new(&buf[..]);
        assert_eq!(h.ihl(), Ok(nibble));
        assert_eq!(h.options().len(), (nibble as usize - 5) * 4);
        assert!((nibble as u16) * 4 <= h.total_len());
        assert_eq!(h.validate(), Ok(()));
    }
}

#[test]
fn options_bytes_are_the_trailing_region() {
    let mut buf = buffer_with_ihl(6, 24);
    buf[20] = 0xDE;
    buf[21] = 0xAD;
    buf[22] = 0xBE;
    buf[23] = 0xEF;
    let h = IPv4Header::new(&buf[..]);
    assert_eq!(h.options(), &[0xDE, 0xAD, 0xBE, 0xEF]);
}

#[test]
fn ihl_below_five_is_invalid() {
    for nibble in 0u8..5 {
        let buf = buffer_with_ihl(nibble, 20);
        let h = IPv4Header::new(&buf[..]);
        assert_eq!(h.ihl(), Err(TCPError::HeaderLengthInvalid));
        assert_eq!(h.validate(), Err(TCPError::HeaderLengthInvalid));
    }
}

#[test]
fn oversized_total_length_is_truncated() {
    let mut buf = buffer_with_ihl(5, 20);
    buf[2] = 0;
    buf[3] = 100;
    let h = IPv4Header::new(&buf[..]);
    assert_eq!(h.validate(), Err(TCPError::FrameTruncated));
}

#[test]
fn oversized_header_length_is_truncated() {
    // IHL 15 declares 60 header bytes, but only 20 are available
    let buf = buffer_with_ihl(15, 20);
    let h = IPv4Header::new(&buf[..]);
    assert_eq!(h.validate(), Err(TCPError::FrameTruncated));
}

#[test]
fn scalar_field_extraction() {
    let bytes: [u8; 20] = [
        0x45, 0xB7, 0x00, 0x14, 0x12, 0x34, 0x65, 0x9A, 0x40, 0x06, 0x00, 0x00, 0x01, 0x02,
        0x03, 0x04, 0x05, 0x06, 0x07, 0x08,
    ];
    let h = IPv4Header::new(&bytes[..]);
    assert_eq!(h.version(), 4);
    assert_eq!(h.dscp(), 0x2D);
    assert_eq!(h.ecn(), 3);
    assert_eq!(h.ident(), 0x1234);
    assert!(h.dont_fragment());
    assert!(h.more_fragments());
    assert_eq!(h.fragment_offset(), 0x059A);
    assert_eq!(h.ttl(), 0x40);
    assert_eq!(h.protocol(), Protocol::TCP);
    assert_eq!(h.source_address_raw(), &[1, 2, 3, 4]);
    assert_eq!(h.destination_address_raw(), &[5, 6, 7, 8]);
}

#[test]
fn flags_clear_when_bits_clear() {
    let mut bytes = [0u8; 20];
    bytes[0] = 0x45;
    bytes[6] = 0x1F;
    let h = IPv4Header::new(&bytes[..]);
    assert!(!h.dont_fragment());
    assert!(!h.more_fragments());
    assert_eq!(h.fragment_offset(), 0x1F00);
}

#[test]
fn protocol_classification_table() {
    assert_eq!(Protocol::classify(1), Protocol::ICMP);
    assert_eq!(Protocol::classify(2), Protocol::IGMP);
    assert_eq!(Protocol::classify(6), Protocol::TCP);
    assert_eq!(Protocol::classify(17), Protocol::UDP);
    assert_eq!(Protocol::classify(253), Protocol::Unknown(253));
    assert_eq!(Protocol::classify(0), Protocol::Unknown(0));
}

#[test]
fn protocol_names() {
    assert_eq!(Protocol::ICMP.name(), "ICMP");
    assert_eq!(Protocol::IGMP.name(), "IGMP");
    assert_eq!(Protocol::TCP.name(), "TCP");
    assert_eq!(Protocol::UDP.name(), "UDP");
    assert_eq!(Protocol::Unknown(253).name(), "Unknown");
}

#[test]
fn link_layer_classification() {
    let ipv4_frame = [0x00, 0x00, 0x08, 0x00, 0x45, 0x00];
    assert_eq!(classify_frame(&ipv4_frame[..]), LinkLayer::IPv4);
    let ipv6_frame = [0x00, 0x00, 0x86, 0xDD, 0x60, 0x00];
    assert_eq!(classify_frame(&ipv6_frame[..]), LinkLayer::Other(0x86DD));
}

#[test]
fn payload_strips_the_envelope() {
    let frame = [0x00, 0x00, 0x08, 0x00, 0x45, 0x00, 0x99];
    assert_eq!(payload(&frame[..]), &[0x45, 0x00, 0x99]);
}
