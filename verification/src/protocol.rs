use vstd::prelude::*;

verus! {

/// Transport protocol carried in an IPv4 datagram, classified from the 8-bit
/// protocol-number field.
///
/// The set is closed: a number outside the recognized registry entries is not
/// an error but resolves to `Unknown`, which keeps the raw value for
/// diagnostics.
#[derive(Clone, Copy, Debug, PartialEq, Eq, Structural)]
pub enum Protocol {
    ICMP,
    IGMP,
    TCP,
    UDP,
    Unknown(u8),
}

/// The classification table: 1, 2, 6 and 17 map to their named protocols,
/// everything else to `Unknown` with the number preserved.
pub open spec fn spec_classify(number: u8) -> Protocol {
    if number == 1 {
        Protocol::ICMP
    } else if number == 2 {
        Protocol::IGMP
    } else if number == 6 {
        Protocol::TCP
    } else if number == 17 {
        Protocol::UDP
    } else {
        Protocol::Unknown(number)
    }
}

impl Protocol {
    /// Maps an 8-bit protocol number to its variant.
    pub fn classify(number: u8) -> (p: Protocol)
        ensures
            p == spec_classify(number),
    {
        match number {
            1 => Protocol::ICMP,
            2 => Protocol::IGMP,
            6 => Protocol::TCP,
            17 => Protocol::UDP,
            _ => Protocol::Unknown(number),
        }
    }

    /// Human-readable name of the protocol, for diagnostics.
    pub fn name(&self) -> (s: &'static str)
        ensures
            *self == Protocol::ICMP ==> s@ == "ICMP"@,
            *self == Protocol::IGMP ==> s@ == "IGMP"@,
            *self == Protocol::TCP ==> s@ == "TCP"@,
            *self == Protocol::UDP ==> s@ == "UDP"@,
            (*self matches Protocol::Unknown(_)) ==> s@ == "Unknown"@,
    {
        match self {
            Protocol::ICMP => "ICMP",
            Protocol::IGMP => "IGMP",
            Protocol::TCP => "TCP",
            Protocol::UDP => "UDP",
            Protocol::Unknown(_) => "Unknown",
        }
    }
}

} // verus!
