//! Protocol numbers.

use vstd::prelude::*;

verus! {

/// The protocol carried in the payload of an IP packet, as numbered in the
/// header's protocol field.
#[derive(Debug, Clone, Copy, PartialEq, Eq)]
pub enum Protocol {
    /// IPv6 hop-by-hop options.
    Hopopt,
    /// Internet Control Message Protocol.
    Icmp,
    /// Internet Group Management Protocol.
    Igmp,
    /// IPv4 encapsulation.
    Ipv4,
    /// Transmission Control Protocol.
    Tcp,
    /// User Datagram Protocol.
    Udp,
    /// IPv6 encapsulation.
    Ipv6,
    /// Routing header for IPv6.
    Ipv6Route,
    /// Fragment header for IPv6.
    Ipv6Frag,
    /// ICMP for IPv6.
    Ipv6Icmp,
    /// No next header for IPv6.
    Ipv6NoNxt,
    /// Destination options for IPv6.
    Ipv6Opts,
    /// A number without a name here.
    Unknown(u8),
}

impl Protocol {
    /// The number that stands for the protocol on the wire.
    pub open spec fn number(self) -> u8 {
        match self {
            Protocol::Hopopt => 0,
            Protocol::Icmp => 1,
            Protocol::Igmp => 2,
            Protocol::Ipv4 => 4,
            Protocol::Tcp => 6,
            Protocol::Udp => 17,
            Protocol::Ipv6 => 41,
            Protocol::Ipv6Route => 43,
            Protocol::Ipv6Frag => 44,
            Protocol::Ipv6Icmp => 58,
            Protocol::Ipv6NoNxt => 59,
            Protocol::Ipv6Opts => 60,
            Protocol::Unknown(number) => number,
        }
    }

    /// The protocol that a number on the wire stands for.
    pub open spec fn of(number: u8) -> Protocol {
        if number == 0 {
            Protocol::Hopopt
        } else if number == 1 {
            Protocol::Icmp
        } else if number == 2 {
            Protocol::Igmp
        } else if number == 4 {
            Protocol::Ipv4
        } else if number == 6 {
            Protocol::Tcp
        } else if number == 17 {
            Protocol::Udp
        } else if number == 41 {
            Protocol::Ipv6
        } else if number == 43 {
            Protocol::Ipv6Route
        } else if number == 44 {
            Protocol::Ipv6Frag
        } else if number == 58 {
            Protocol::Ipv6Icmp
        } else if number == 59 {
            Protocol::Ipv6NoNxt
        } else if number == 60 {
            Protocol::Ipv6Opts
        } else {
            Protocol::Unknown(number)
        }
    }

    /// Whether the protocol is the one that its own number is read back as:
    /// every named protocol, and `Unknown` of a number that has no name.
    pub open spec fn canonical(self) -> bool {
        Protocol::of(self.number()) == self
    }
}

impl From<u8> for Protocol {
    fn from(number: u8) -> (protocol: Protocol) {
        match number {
            0 => Protocol::Hopopt,
            1 => Protocol::Icmp,
            2 => Protocol::Igmp,
            4 => Protocol::Ipv4,
            6 => Protocol::Tcp,
            17 => Protocol::Udp,
            41 => Protocol::Ipv6,
            43 => Protocol::Ipv6Route,
            44 => Protocol::Ipv6Frag,
            58 => Protocol::Ipv6Icmp,
            59 => Protocol::Ipv6NoNxt,
            60 => Protocol::Ipv6Opts,
            other => Protocol::Unknown(other),
        }
    }
}

impl vstd::std_specs::convert::FromSpecImpl<u8> for Protocol {
    open spec fn obeys_from_spec() -> bool {
        true
    }

    open spec fn from_spec(number: u8) -> Protocol {
        Protocol::of(number)
    }
}

impl From<Protocol> for u8 {
    fn from(protocol: Protocol) -> (number: u8) {
        match protocol {
            Protocol::Hopopt => 0,
            Protocol::Icmp => 1,
            Protocol::Igmp => 2,
            Protocol::Ipv4 => 4,
            Protocol::Tcp => 6,
            Protocol::Udp => 17,
            Protocol::Ipv6 => 41,
            Protocol::Ipv6Route => 43,
            Protocol::Ipv6Frag => 44,
            Protocol::Ipv6Icmp => 58,
            Protocol::Ipv6NoNxt => 59,
            Protocol::Ipv6Opts => 60,
            Protocol::Unknown(number) => number,
        }
    }
}

impl vstd::std_specs::convert::FromSpecImpl<Protocol> for u8 {
    open spec fn obeys_from_spec() -> bool {
        true
    }

    open spec fn from_spec(protocol: Protocol) -> u8 {
        protocol.number()
    }
}

/// Reading back the number of a protocol gives the number itself.
pub proof fn lemma_number_of(number: u8)
    ensures
        Protocol::of(number).number() == number,
        Protocol::of(number).canonical(),
{
}

} // verus!
