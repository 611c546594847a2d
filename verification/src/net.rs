//! Network addresses as plain values.

use vstd::prelude::*;

use crate::bytes::be32;

verus! {

/// IPv4 address.
#[derive(Clone, Copy, Debug, Eq, Hash, PartialEq, Structural)]
pub struct Ipv4Addr {
    /// The address as a number, first octet most significant.
    pub bits: u32,
}

impl Ipv4Addr {
    /// Creates an address from its octets.
    #[must_use]
    pub fn new(a: u8, b: u8, c: u8, d: u8) -> (r: Self)
        ensures
            r.bits == be32(a, b, c, d),
    {
        Ipv4Addr {
            bits: a as u32 * 0x100_0000 + b as u32 * 0x1_0000 + c as u32 * 0x100 + d as u32,
        }
    }
}

/// IPv6 address.
#[derive(Clone, Copy, Debug, Eq, Hash, PartialEq, Structural)]
pub struct Ipv6Addr {
    /// The address as a number, first octet most significant.
    pub bits: u128,
}

/// IP address of either family.
#[derive(Clone, Copy, Debug, Eq, Hash, PartialEq, Structural)]
pub enum IpAddr {
    /// An IPv4 address.
    V4(Ipv4Addr),
    /// An IPv6 address.
    V6(Ipv6Addr),
}

/// IP address and port.
#[allow(inconsistent_fields)]
#[derive(Clone, Copy, Debug, Eq, Hash, PartialEq, Structural)]
pub enum SocketAddr {
    /// An IPv4 endpoint.
    V4 {
        /// Address.
        ip: Ipv4Addr,
        /// Port.
        port: u16,
    },
    /// An IPv6 endpoint.
    V6 {
        /// Address.
        ip: Ipv6Addr,
        /// Port.
        port: u16,
        /// Flow information.
        flowinfo: u32,
        /// Scope identifier.
        scope_id: u32,
    },
}

impl SocketAddr {
    /// The address part.
    pub open spec fn spec_ip(self) -> IpAddr {
        match self {
            SocketAddr::V4 { ip, .. } => IpAddr::V4(ip),
            SocketAddr::V6 { ip, .. } => IpAddr::V6(ip),
        }
    }

    /// The port part.
    pub open spec fn spec_port(self) -> u16 {
        match self {
            SocketAddr::V4 { port, .. } => port,
            SocketAddr::V6 { port, .. } => port,
        }
    }

    /// Creates an IPv4 endpoint.
    #[must_use]
    pub fn v4(ip: Ipv4Addr, port: u16) -> (r: Self)
        ensures
            r == (SocketAddr::V4 { ip, port }),
    {
        SocketAddr::V4 { ip, port }
    }

    /// Returns the address part.
    #[must_use]
    pub fn ip(&self) -> (r: IpAddr)
        ensures
            r == self.spec_ip(),
    {
        match *self {
            SocketAddr::V4 { ip, .. } => IpAddr::V4(ip),
            SocketAddr::V6 { ip, .. } => IpAddr::V6(ip),
        }
    }

    /// Returns the port part.
    #[must_use]
    pub fn port(&self) -> (r: u16)
        ensures
            r == self.spec_port(),
    {
        match *self {
            SocketAddr::V4 { port, .. } => port,
            SocketAddr::V6 { port, .. } => port,
        }
    }
}

/// The octets of an IPv4 address stand in its number, most significant first.
pub proof fn law_octets_stand_in_the_number(a: u8, b: u8, c: u8, d: u8, r: Ipv4Addr)
    requires
        call_ensures(Ipv4Addr::new, (a, b, c, d), r),
    ensures
        r.bits == a * 0x100_0000 + b * 0x1_0000 + c * 0x100 + d,
{
}

/// An endpoint gives back the address and the port that it was made of.
pub proof fn law_endpoints_have_their_parts(ip: Ipv4Addr, port: u16, addr: SocketAddr)
    requires
        call_ensures(SocketAddr::v4, (ip, port), addr),
    ensures
        forall|r: IpAddr| #[trigger]
            call_ensures(SocketAddr::ip, (&addr,), r) ==> r == IpAddr::V4(ip),
        forall|r: u16| #[trigger] call_ensures(SocketAddr::port, (&addr,), r) ==> r == port,
        forall|ip6: Ipv6Addr, port6: u16, flowinfo: u32, scope_id: u32, r: IpAddr|
            #![trigger call_ensures(
                SocketAddr::ip,
                (&(SocketAddr::V6 { ip: ip6, port: port6, flowinfo, scope_id }),),
                r,
            )]
            call_ensures(
                SocketAddr::ip,
                (&(SocketAddr::V6 { ip: ip6, port: port6, flowinfo, scope_id }),),
                r,
            ) ==> r == IpAddr::V6(ip6),
        forall|ip6: Ipv6Addr, port6: u16, flowinfo: u32, scope_id: u32, r: u16|
            #![trigger call_ensures(
                SocketAddr::port,
                (&(SocketAddr::V6 { ip: ip6, port: port6, flowinfo, scope_id }),),
                r,
            )]
            call_ensures(
                SocketAddr::port,
                (&(SocketAddr::V6 { ip: ip6, port: port6, flowinfo, scope_id }),),
                r,
            ) ==> r == port6,
{
}

} // verus!
