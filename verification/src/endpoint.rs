//! Resolver endpoints: the address and port of a DNS server.

use vstd::prelude::*;

verus! {

/// The port a resolver listens on where a line names none.
pub const DEFAULT_PORT: u16 = 53;

/// An IP address, held as the number its bytes spell in network order.
#[derive(Clone, Copy, PartialEq, Eq, Structural, Debug)]
pub enum IpAddress {
    V4 { bits: u32 },
    /// An IPv6 address with the scope it is valid in; 0 where it names none.
    V6 { bits: u128, scope_id: u32 },
}

/// The address of a DNS server.
#[derive(Clone, Copy, PartialEq, Eq, Structural, Debug)]
pub struct ResolverEndpoint {
    pub address: IpAddress,
    pub port: u16,
}

/// The number that four octets spell in network order.
pub open spec fn v4_bits(a: u8, b: u8, c: u8, d: u8) -> int {
    a * 0x100_0000 + b * 0x1_0000 + c * 0x100 + d
}

impl ResolverEndpoint {
    /// The endpoint at the IPv4 address `a.b.c.d` and `port`.
    pub fn v4(a: u8, b: u8, c: u8, d: u8, port: u16) -> (endpoint: ResolverEndpoint)
        ensures
            endpoint.port == port,
            endpoint.address == (IpAddress::V4 { bits: v4_bits(a, b, c, d) as u32 }),
            v4_bits(a, b, c, d) <= u32::MAX,
    {
        let high: u32 = a as u32 * 0x100_0000 + b as u32 * 0x1_0000;
        let low: u32 = c as u32 * 0x100 + d as u32;
        ResolverEndpoint { address: IpAddress::V4 { bits: high + low }, port }
    }

    /// The endpoint at the IPv6 address that `bits` spells, in the scope
    /// `scope_id`, and `port`.
    pub fn v6(bits: u128, scope_id: u32, port: u16) -> (endpoint: ResolverEndpoint)
        ensures
            endpoint.port == port,
            endpoint.address == (IpAddress::V6 { bits, scope_id }),
    {
        ResolverEndpoint { address: IpAddress::V6 { bits, scope_id }, port }
    }

    /// The port of the endpoint.
    pub fn port(&self) -> (port: u16)
        ensures
            port == self.port,
    {
        self.port
    }
}

} // verus!
