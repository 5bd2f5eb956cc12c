//! Internet addresses, and how they and their ports are written in a text header.
use vstd::prelude::*;

pub mod port;
pub mod v4;
pub mod v6;

verus! {

/// An IPv4 address.
#[derive(Clone, Copy, Debug, PartialEq, Eq)]
pub struct Ipv4Addr {
    /// The four bytes, in network order.
    pub octets: [u8; 4],
}

/// An IPv6 address.
#[derive(Clone, Copy, Debug, PartialEq, Eq)]
pub struct Ipv6Addr {
    /// The eight groups of 16 bits, in network order.
    pub segments: [u16; 8],
}

/// An IPv4 address and a port.
#[derive(Clone, Copy, Debug, PartialEq, Eq)]
pub struct SocketAddrV4 {
    pub ip: Ipv4Addr,
    pub port: u16,
}

/// An IPv6 address and a port.
#[derive(Clone, Copy, Debug, PartialEq, Eq)]
pub struct SocketAddrV6 {
    pub ip: Ipv6Addr,
    pub port: u16,
    pub flowinfo: u32,
    pub scope_id: u32,
}

/// The address of a socket.
#[derive(Clone, Copy, Debug, PartialEq, Eq)]
pub enum SocketAddr {
    V4(SocketAddrV4),
    V6(SocketAddrV6),
}

/// An IP address of either family.
#[derive(Clone, Copy, Debug, PartialEq, Eq)]
pub enum IpAddr {
    V4(Ipv4Addr),
    V6(Ipv6Addr),
}

/// Why a text is no address of the family that was looked for.
#[derive(Clone, Copy, Debug, PartialEq, Eq)]
pub enum AddrParseError {
    Ipv4,
    Ipv6,
}

impl AddrParseError {
    /// The error in words.
    pub fn description(&self) -> (text: &'static str)
        ensures
            text@ == match *self {
                AddrParseError::Ipv4 => "invalid IPv4 address syntax"@,
                AddrParseError::Ipv6 => "invalid IPv6 address syntax"@,
            },
    {
        match self {
            AddrParseError::Ipv4 => "invalid IPv4 address syntax",
            AddrParseError::Ipv6 => "invalid IPv6 address syntax",
        }
    }
}

impl SocketAddr {
    /// The socket address of an IP address and a port, with no flow label and no scope.
    pub open spec fn spec_new(ip: IpAddr, port: u16) -> SocketAddr {
        match ip {
            IpAddr::V4(ip) => SocketAddr::V4(SocketAddrV4 { ip, port }),
            IpAddr::V6(ip) => SocketAddr::V6(
                SocketAddrV6 { ip, port, flowinfo: 0, scope_id: 0 },
            ),
        }
    }

    /// The socket address of an IP address and a port, with no flow label and no scope.
    pub fn new(ip: IpAddr, port: u16) -> (addr: SocketAddr)
        ensures
            addr == SocketAddr::spec_new(ip, port),
    {
        match ip {
            IpAddr::V4(ip) => SocketAddr::V4(SocketAddrV4 { ip, port }),
            IpAddr::V6(ip) => SocketAddr::V6(
                SocketAddrV6 { ip, port, flowinfo: 0, scope_id: 0 },
            ),
        }
    }

    /// The port.
    pub open spec fn spec_port(self) -> u16 {
        match self {
            SocketAddr::V4(a) => a.port,
            SocketAddr::V6(a) => a.port,
        }
    }

    /// How the IP address is written: flow label, scope and port are no part of it.
    pub open spec fn ip_text(self) -> Seq<u8> {
        match self {
            SocketAddr::V4(a) => v4::ipv4_text(a.ip),
            SocketAddr::V6(a) => v6::ipv6_text(a.ip),
        }
    }

    /// The port.
    pub fn port(&self) -> (port: u16)
        ensures
            port == self.spec_port(),
    {
        match self {
            SocketAddr::V4(a) => a.port,
            SocketAddr::V6(a) => a.port,
        }
    }

    /// Appends the IP address as text.
    pub fn push_ip(&self, out: &mut Vec<u8>)
        ensures
            final(out)@ == old(out)@ + self.ip_text(),
    {
        match self {
            SocketAddr::V4(a) => v4::push_ipv4(out, &a.ip),
            SocketAddr::V6(a) => v6::push_ipv6(out, &a.ip),
        }
    }
}

} // verus!
