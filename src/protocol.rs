use vstd::prelude::*;

verus! {

/// IANA protocol number of ICMP.
pub const IPPROTO_ICMP: u8 = 1;

/// IANA protocol number of TCP.
pub const IPPROTO_TCP: u8 = 6;

/// IANA protocol number of UDP.
pub const IPPROTO_UDP: u8 = 17;

/// The protocol tag carried by rules and logs on the control-plane wire.
#[derive(Clone, Copy, Debug, PartialEq, Eq, Structural)]
pub enum IpProtocol {
    Tcp,
    Udp,
    Icmp,
    Undefined,
}

/// Protocol number that a rule of the given tag is matched against in the
/// kernel. A rule tagged `Undefined` is installed as a TCP rule.
pub open spec fn protocol_number(p: IpProtocol) -> u8 {
    match p {
        IpProtocol::Tcp => IPPROTO_TCP,
        IpProtocol::Udp => IPPROTO_UDP,
        IpProtocol::Icmp => IPPROTO_ICMP,
        IpProtocol::Undefined => IPPROTO_TCP,
    }
}

/// Tag of a protocol number as read back from a kernel record.
pub open spec fn protocol_of_number(value: u8) -> IpProtocol {
    if value == IPPROTO_TCP {
        IpProtocol::Tcp
    } else if value == IPPROTO_UDP {
        IpProtocol::Udp
    } else if value == IPPROTO_ICMP {
        IpProtocol::Icmp
    } else {
        IpProtocol::Undefined
    }
}

/// The name of a tag as it is written on the wire.
pub open spec fn protocol_name(p: IpProtocol) -> Seq<char> {
    match p {
        IpProtocol::Tcp => seq!['T', 'c', 'p'],
        IpProtocol::Udp => seq!['U', 'd', 'p'],
        IpProtocol::Icmp => seq!['I', 'c', 'm', 'p'],
        IpProtocol::Undefined => seq!['U', 'n', 'd', 'e', 'f', 'i', 'n', 'e', 'd'],
    }
}

impl IpProtocol {
    /// The tag's name, as `Display` writes it.
    pub fn name(&self) -> (r: String)
        ensures
            r@ == protocol_name(*self),
    {
        let s = match self {
            IpProtocol::Tcp => "Tcp",
            IpProtocol::Udp => "Udp",
            IpProtocol::Icmp => "Icmp",
            IpProtocol::Undefined => "Undefined",
        };
        proof {
            reveal_strlit("Tcp");
            reveal_strlit("Udp");
            reveal_strlit("Icmp");
            reveal_strlit("Undefined");
        }
        let r = String::from_str(s);
        assert(r@ =~= protocol_name(*self));
        r
    }
}

/// The protocol number that the classifier compares a packet's protocol
/// with, for a rule of the given tag.
pub fn get_protocol(protocol: IpProtocol) -> (r: u8)
    ensures
        r == protocol_number(protocol),
{
    match protocol {
        IpProtocol::Tcp => IPPROTO_TCP,
        IpProtocol::Udp => IPPROTO_UDP,
        IpProtocol::Icmp => IPPROTO_ICMP,
        IpProtocol::Undefined => IPPROTO_TCP,
    }
}

/// The tag of a protocol number; numbers other than TCP, UDP and ICMP are
/// `Undefined`.
pub fn get_protocol_from_u8(value: u8) -> (r: IpProtocol)
    ensures
        r == protocol_of_number(value),
{
    if value == IPPROTO_TCP {
        IpProtocol::Tcp
    } else if value == IPPROTO_UDP {
        IpProtocol::Udp
    } else if value == IPPROTO_ICMP {
        IpProtocol::Icmp
    } else {
        IpProtocol::Undefined
    }
}

} // verus!
