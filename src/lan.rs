//! The operator's LAN subnet, and the LAN/WAN classification of endpoints.

use crate::addr::{embedded_v4, to_ipv4, IpAddress, SockAddr};
use vstd::prelude::*;

verus! {

/// An IPv4 subnet: an address and a prefix length of at most 32.
#[derive(Clone, Copy, Debug, PartialEq, Eq, Structural)]
pub struct LanMask {
    pub addr: u32,
    pub prefix: u8,
}

impl LanMask {
    pub open spec fn wf(&self) -> bool {
        self.prefix <= 32
    }
}

/// What `Ipv4Network` parses from CIDR text: its address and prefix.
pub uninterp spec fn ipv4_network_of(s: Seq<char>) -> Option<(u32, u8)>;

/// Relies on `ipnetwork::Ipv4Network::from_str`: the address and prefix parsed
/// from text such as `192.168.0.0/16`; `Ipv4Network::new` refuses a prefix over 32.
#[verifier::external_body]
fn parse_ipv4_network(s: &str) -> (r: Option<(u32, u8)>)
    ensures
        r == ipv4_network_of(s@),
        r matches Some((_, p)) ==> p <= 32,
{
    s.parse::<ipnetwork::Ipv4Network>().ok().map(|n| (u32::from(n.ip()), n.prefix()))
}

/// The subnet mask of a prefix length, as `Ipv4Network` computes it.
pub open spec fn mask_bits(prefix: u8) -> u32 {
    (#[verifier::truncate] ((!(0xffff_ffffu64 >> (prefix as u64))) as u32))
}

/// Whether `ip` lies in the subnet `m`.
pub open spec fn in_subnet(m: LanMask, ip: u32) -> bool {
    ip & mask_bits(m.prefix) == m.addr & mask_bits(m.prefix)
}

/// Whether an endpoint is on the operator's LAN: its IPv4 address, or the IPv4
/// address inside its IPv6 address, lies in the subnet.
pub open spec fn spec_is_lan(mask: Option<LanMask>, a: SockAddr) -> bool {
    match mask {
        None => false,
        Some(m) => match a.ip {
            IpAddress::V4(x) => in_subnet(m, x),
            IpAddress::V6(x) => match embedded_v4(x) {
                Some(v4) => in_subnet(m, v4),
                None => false,
            },
        },
    }
}

/// Parses the operator's `mask` setting; `None` where it is no IPv4 subnet.
pub fn parse_mask(s: &str) -> (r: Option<LanMask>)
    ensures
        r == (match ipv4_network_of(s@) {
            Some((a, p)) => Some(LanMask { addr: a, prefix: p }),
            None => None::<LanMask>,
        }),
        r matches Some(m) ==> m.wf(),
{
    match parse_ipv4_network(s) {
        Some((a, p)) => Some(LanMask { addr: a, prefix: p }),
        None => None,
    }
}

/// Whether `ip` lies in the subnet `m`.
pub fn contains(m: LanMask, ip: u32) -> (r: bool)
    requires
        m.wf(),
    ensures
        r == in_subnet(m, ip),
{
    let bits: u32 = (#[verifier::truncate] ((!(0xffff_ffffu64 >> (m.prefix as u64))) as u32));
    ip & bits == m.addr & bits
}

/// Classifies an endpoint as LAN (true) or WAN (false).
pub fn is_lan(mask: Option<LanMask>, a: SockAddr) -> (r: bool)
    requires
        mask matches Some(m) ==> m.wf(),
    ensures
        r == spec_is_lan(mask, a),
{
    match mask {
        None => false,
        Some(m) => match a.ip {
            IpAddress::V4(x) => contains(m, x),
            IpAddress::V6(x) => match to_ipv4(x) {
                Some(v4) => contains(m, v4),
                None => false,
            },
        },
    }
}

} // verus!
