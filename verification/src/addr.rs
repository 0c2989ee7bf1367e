//! Network endpoints as plain values.
//!
//! A peer is identified by an IP address and a UDP port. The address is kept
//! as the raw 128-bit value of the IP (an IPv4 address occupies the low 32
//! bits) together with a flag telling the two families apart, so that the
//! whole endpoint is a triple of scalars that contracts can speak about
//! directly. The driver converts between this form and the socket address
//! type of its transport.

use vstd::prelude::*;

verus! {

/// A network endpoint: IP address plus UDP port.
#[derive(Clone, Copy, PartialEq, Eq, Structural, Debug)]
pub struct Addr {
    /// True for an IPv6 address; false for IPv4.
    pub is_v6: bool,
    /// The IP address as an unsigned integer. For IPv4 only the low 32 bits
    /// are meaningful.
    pub ip: u128,
    /// The UDP port.
    pub port: u16,
}

impl Addr {
    /// Builds an IPv4 endpoint from the address's four octets, given most
    /// significant first, and a port.
    pub fn v4(a: u8, b: u8, c: u8, d: u8, port: u16) -> (r: Addr)
        ensures
            !r.is_v6,
            r.ip == (a as u128) * 0x1000000 + (b as u128) * 0x10000 + (c as u128) * 0x100 + (
            d as u128),
            r.port == port,
    {
        Addr {
            is_v6: false,
            ip: (a as u128) * 0x1000000 + (b as u128) * 0x10000 + (c as u128) * 0x100 + (
            d as u128),
            port,
        }
    }

    /// Builds an IPv6 endpoint from the raw 128-bit address value and a port.
    pub fn v6(ip: u128, port: u16) -> (r: Addr)
        ensures
            r.is_v6,
            r.ip == ip,
            r.port == port,
    {
        Addr { is_v6: true, ip, port }
    }
}

} // verus!
