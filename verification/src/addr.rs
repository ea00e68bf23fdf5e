//! IP addresses, sockets and networks as plain integers.
use vstd::arithmetic::power2::pow2;
use vstd::prelude::*;

use crate::error::Error;

verus! {

/// An IP address, held as the integer that its octets spell in network order.
#[derive(Clone, Copy, Debug, PartialEq, Eq, Structural)]
pub enum IpAddr {
    V4(u32),
    V6(u128),
}

/// An IP address with a port.
#[derive(Clone, Copy, Debug, PartialEq, Eq, Structural)]
pub struct SocketAddr {
    pub ip: IpAddr,
    pub port: u16,
}

/// A network in CIDR notation: an address that lies in it, and the length of its prefix.
#[derive(Clone, Copy, Debug, PartialEq, Eq, Structural)]
pub struct IpNet {
    pub addr: IpAddr,
    pub prefix_len: u8,
}

/// How many bits an address has.
pub open spec fn width(ip: IpAddr) -> int {
    match ip {
        IpAddr::V4(_) => 32,
        IpAddr::V6(_) => 128,
    }
}

/// The integer that an address spells.
pub open spec fn bits(ip: IpAddr) -> int {
    match ip {
        IpAddr::V4(n) => n as int,
        IpAddr::V6(n) => n as int,
    }
}

impl IpNet {
    /// The prefix is no longer than the address.
    pub open spec fn wf(self) -> bool {
        self.prefix_len <= width(self.addr)
    }

    /// How many addresses the network has.
    pub open spec fn hosts(self) -> int {
        pow2((width(self.addr) - self.prefix_len) as nat) as int
    }

    /// An address lies in a network when both are of one family and share the network's prefix.
    pub open spec fn has(self, ip: IpAddr) -> bool {
        width(ip) == width(self.addr) && bits(ip) / self.hosts() == bits(self.addr) / self.hosts()
    }
}

/// What `ipnet`'s `IpNet::from_str` makes of a text: a network, or nothing.
pub uninterp spec fn cidr_value(text: Seq<char>) -> Option<IpNet>;

/// What the standard library's `IpAddr::from_str` makes of a text: an address, or nothing.
pub uninterp spec fn ip_value(text: Seq<char>) -> Option<IpAddr>;

/// `ipnet`'s `AddrParseError`, which says no more than that a text is not a network.
#[verifier::external_type_specification]
#[verifier::external_body]
pub struct ExAddrParseError(ipnet::AddrParseError);

/// Calls `ipnet`'s `IpNet::from_str`, whose result depends on the text alone. A network that it
/// gives has a prefix of at most 32 bits (IPv4) or 128 bits (IPv6), and keeps the address as it was
/// written, host bits included.
#[verifier::external_body]
pub(crate) fn parse_cidr(text: &str) -> (res: Result<IpNet, ipnet::AddrParseError>)
    ensures
        match res {
            Ok(net) => cidr_value(text@) == Some(net) && net.wf(),
            Err(_) => cidr_value(text@) is None,
        },
{
    Ok(match text.parse::<ipnet::IpNet>()? {
        ipnet::IpNet::V4(n) => IpNet { addr: IpAddr::V4(n.addr().into()), prefix_len: n.prefix_len() },
        ipnet::IpNet::V6(n) => IpNet { addr: IpAddr::V6(n.addr().into()), prefix_len: n.prefix_len() },
    })
}

/// Calls `ipnet`'s `IpNet::contains` on an address. It compares the address with the first and the
/// last address of the network, and is false where the families differ: the addresses in between are
/// those that share the network's prefix.
#[verifier::external_body]
pub(crate) fn net_contains(net: IpNet, ip: IpAddr) -> (res: bool)
    requires
        net.wf(),
    ensures
        res == net.has(ip),
{
    let subnet: ipnet::IpNet = match net.addr {
        IpAddr::V4(n) => ipnet::Ipv4Net::new_assert(n.into(), net.prefix_len).into(),
        IpAddr::V6(n) => ipnet::Ipv6Net::new_assert(n.into(), net.prefix_len).into(),
    };
    let host: ipnet::IpNet = match ip {
        IpAddr::V4(n) => ipnet::Ipv4Net::new_assert(n.into(), 0).into(),
        IpAddr::V6(n) => ipnet::Ipv6Net::new_assert(n.into(), 0).into(),
    };
    subnet.contains(&host.addr())
}

/// Calls the standard library's `IpAddr::from_str`, whose result depends on the text alone.
/// `ipnet`'s `IpNet` only tells the two families of the address apart.
#[verifier::external_body]
pub(crate) fn parse_ip(text: &str) -> (res: Option<IpAddr>)
    ensures
        res == ip_value(text@),
{
    match ipnet::IpNet::new(text.parse().ok()?, 0).ok()? {
        ipnet::IpNet::V4(n) => Some(IpAddr::V4(n.addr().into())),
        ipnet::IpNet::V6(n) => Some(IpAddr::V6(n.addr().into())),
    }
}

/// The network that a text writes in CIDR notation.
pub fn cidr(text: &str) -> (res: Result<IpNet, Error>)
    ensures
        res == match cidr_value(text@) {
            Some(net) => Ok(net),
            None => Err(Error::InvalidCidr),
        },
        res matches Ok(net) ==> net.wf(),
{
    match parse_cidr(text) {
        Ok(net) => Ok(net),
        Err(_) => Err(Error::InvalidCidr),
    }
}

} // verus!
