//! IP addresses as plain octets, as LLDP and the flow filters carry them.
use vstd::prelude::*;

verus! {

/// An IPv4 or IPv6 address, held as its octets in network order.
#[derive(Debug, Clone, Copy, PartialEq, Eq)]
pub enum IpAddr {
    V4([u8; 4]),
    V6([u8; 16]),
}

/// `ip` is the address whose octets are `octets` (4 of them for IPv4, 16 for IPv6).
pub open spec fn ip_has_octets(ip: IpAddr, octets: Seq<u8>) -> bool {
    match ip {
        IpAddr::V4(a) => octets.len() == 4 && a@ == octets,
        IpAddr::V6(a) => octets.len() == 16 && a@ == octets,
    }
}

/// The four octets of `bytes` that start at `start`.
pub fn octets4(bytes: &[u8], start: usize) -> (a: [u8; 4])
    requires
        start + 4 <= bytes@.len(),
    ensures
        a@ == bytes@.subrange(start as int, start + 4),
{
    let a = [bytes[start], bytes[start + 1], bytes[start + 2], bytes[start + 3]];
    assert(a@ =~= bytes@.subrange(start as int, start + 4));
    a
}

/// The sixteen octets of `bytes` that start at `start`.
pub fn octets16(bytes: &[u8], start: usize) -> (a: [u8; 16])
    requires
        start + 16 <= bytes@.len(),
    ensures
        a@ == bytes@.subrange(start as int, start + 16),
{
    let a = [
        bytes[start], bytes[start + 1], bytes[start + 2], bytes[start + 3],
        bytes[start + 4], bytes[start + 5], bytes[start + 6], bytes[start + 7],
        bytes[start + 8], bytes[start + 9], bytes[start + 10], bytes[start + 11],
        bytes[start + 12], bytes[start + 13], bytes[start + 14], bytes[start + 15],
    ];
    assert(a@ =~= bytes@.subrange(start as int, start + 16));
    a
}

} // verus!
