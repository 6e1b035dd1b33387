//! Socket addresses as plain values, and their normalisation.

use vstd::prelude::*;

verus! {

/// An IP address: IPv4 as a 32-bit number, IPv6 as a 128-bit number.
#[derive(Clone, Copy, Debug, PartialEq, Eq, Structural)]
pub enum IpAddress {
    V4(u32),
    V6(u128),
}

/// A socket address.
#[derive(Clone, Copy, Debug, PartialEq, Eq, Structural)]
pub struct SockAddr {
    pub ip: IpAddress,
    pub port: u16,
}

/// The IPv4 address embedded in an IPv4-mapped IPv6 address (`::ffff:a.b.c.d`).
pub open spec fn mapped_v4(x: u128) -> Option<u32> {
    if x >> 32u128 == 0xffffu128 {
        Some((x % 0x1_0000_0000u128) as u32)
    } else {
        None
    }
}

/// The address with an IPv4-mapped IPv6 address replaced by its IPv4 form.
pub open spec fn normalized(a: SockAddr) -> SockAddr {
    match a.ip {
        IpAddress::V6(x) => match mapped_v4(x) {
            Some(v4) => SockAddr { ip: IpAddress::V4(v4), port: a.port },
            None => a,
        },
        IpAddress::V4(_) => a,
    }
}

/// Whether an address is a loopback address (127.0.0.0/8 or ::1).
pub open spec fn spec_is_loopback(ip: IpAddress) -> bool {
    match ip {
        IpAddress::V4(x) => x >> 24u32 == 127u32,
        IpAddress::V6(x) => x == 1u128,
    }
}

/// The IPv4 address that `Ipv6Addr::to_ipv4` finds in an IPv6 address: the
/// mapped form `::ffff:a.b.c.d` and the compatible form `::a.b.c.d`.
pub open spec fn embedded_v4(x: u128) -> Option<u32> {
    if x >> 32u128 == 0xffffu128 || x >> 32u128 == 0u128 {
        Some((x % 0x1_0000_0000u128) as u32)
    } else {
        None
    }
}

/// Normalises an IPv4-mapped IPv6 address to IPv4, so that a client seen over a
/// dual-stack socket keys the same entries as over IPv4 alone.
pub fn try_into_v4(a: SockAddr) -> (r: SockAddr)
    ensures
        r == normalized(a),
{
    match a.ip {
        IpAddress::V6(x) => {
            if x >> 32u128 == 0xffffu128 {
                SockAddr { ip: IpAddress::V4((x % 0x1_0000_0000u128) as u32), port: a.port }
            } else {
                a
            }
        },
        IpAddress::V4(_) => a,
    }
}

/// Whether `ip` is a loopback address.
pub fn is_loopback(ip: IpAddress) -> (r: bool)
    ensures
        r == spec_is_loopback(ip),
{
    match ip {
        IpAddress::V4(x) => x >> 24u32 == 127u32,
        IpAddress::V6(x) => x == 1u128,
    }
}

/// The IPv4 address inside an IPv6 address in mapped or compatible form.
pub fn to_ipv4(x: u128) -> (r: Option<u32>)
    ensures
        r == embedded_v4(x),
{
    if x >> 32u128 == 0xffffu128 || x >> 32u128 == 0u128 {
        Some((x % 0x1_0000_0000u128) as u32)
    } else {
        None
    }
}

/// Whether two addresses are of one family and have the same ip.
pub fn same_ip(a: SockAddr, b: SockAddr) -> (r: bool)
    ensures
        r == (a.ip == b.ip),
{
    match (a.ip, b.ip) {
        (IpAddress::V4(x), IpAddress::V4(y)) => x == y,
        (IpAddress::V6(x), IpAddress::V6(y)) => x == y,
        _ => false,
    }
}

} // verus!
