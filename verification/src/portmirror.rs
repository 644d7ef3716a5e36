//! The flow filter of the port mirror: which packets of a source port are
//! copied to the mirror port.
use vstd::prelude::*;
use crate::ip::IpAddr;

verus! {

/// The filter matches on the source address.
pub const HASH_TYPE_SRC: u8 = 0x01;

/// The filter matches on the destination address.
pub const HASH_TYPE_DST: u8 = 0x02;

/// The filter matches on the protocol.
pub const HASH_TYPE_PROTO: u8 = 0x04;

/// The filter matches on the source port.
pub const HASH_TYPE_SPORT: u8 = 0x08;

/// The filter matches on the destination port.
pub const HASH_TYPE_DPORT: u8 = 0x10;

/// The key of a mirrored flow, with addresses and ports as they lie in
/// memory in network order.
#[derive(Debug, Clone, Copy, PartialEq, Eq)]
pub struct FlowKey {
    pub saddr: u128,
    pub daddr: u128,
    pub sport: u16,
    pub dport: u16,
    pub proto: u8,
    pub ip_version: u8,
}

/// The integer whose bytes, lowest first, are `b`.
pub open spec fn little_endian_value(b: Seq<u8>) -> nat
    decreases b.len(),
{
    if b.len() == 0 {
        0
    } else {
        b[0] as nat + 256 * little_endian_value(b.drop_first())
    }
}

/// The integer whose bytes, highest first, are `b`.
pub open spec fn big_endian_value(b: Seq<u8>) -> nat {
    little_endian_value(b.reverse())
}

/// `v` is what the bytes `b` hold as an integer in memory, on a
/// little-endian or on a big-endian machine.
pub open spec fn native_value(b: Seq<u8>, v: nat) -> bool {
    v == little_endian_value(b) || v == big_endian_value(b)
}

/// A 16-bit value with its two bytes swapped.
pub open spec fn swap_bytes16(v: u16) -> u16 {
    ((v % 256) * 256 + v / 256) as u16
}

/// Reads four octets as an integer in the machine's byte order.
///
/// Calls `u32::from_ne_bytes`, which reads them as a little-endian or a
/// big-endian integer, as the machine stores integers; which of the two is
/// not stated.
#[verifier::external_body]
pub(crate) fn native_u32(octets: [u8; 4]) -> (v: u32)
    ensures
        native_value(octets@, v as nat),
{
    u32::from_ne_bytes(octets)
}

/// Reads eight octets as an integer in the machine's byte order.
///
/// Calls `u64::from_ne_bytes`, which reads them as a little-endian or a
/// big-endian integer, as the machine stores integers; which of the two is
/// not stated.
#[verifier::external_body]
pub(crate) fn native_u64(octets: [u8; 8]) -> (v: u64)
    ensures
        native_value(octets@, v as nat),
{
    u64::from_ne_bytes(octets)
}

/// Reads sixteen octets as an integer in the machine's byte order.
///
/// Calls `u128::from_ne_bytes`, which reads them as a little-endian or a
/// big-endian integer, as the machine stores integers; which of the two is
/// not stated.
#[verifier::external_body]
fn native_u128(octets: [u8; 16]) -> (v: u128)
    ensures
        native_value(octets@, v as nat),
{
    u128::from_ne_bytes(octets)
}

/// Converts a value to big-endian order.
///
/// Calls `u16::to_be`, which swaps the two bytes on a little-endian machine
/// and keeps them on a big-endian one; which of the two is not stated.
#[verifier::external_body]
fn big_endian_u16(v: u16) -> (r: u16)
    ensures
        r == v || r == swap_bytes16(v),
{
    v.to_be()
}

/// Bytes read as an integer, lowest first, give zero exactly when all of
/// them are zero.
proof fn lemma_little_endian_zero(b: Seq<u8>)
    ensures
        (little_endian_value(b) == 0) <==> (forall|i: int| 0 <= i < b.len() ==> b[i] == 0),
    decreases b.len(),
{
    if b.len() > 0 {
        lemma_little_endian_zero(b.drop_first());
        if forall|i: int| 0 <= i < b.len() ==> b[i] == 0 {
            assert forall|i: int| 0 <= i < b.drop_first().len() implies b.drop_first()[i] == 0 by {
                assert(b[i + 1] == 0);
            }
        }
        if little_endian_value(b) == 0 {
            assert forall|i: int| 0 <= i < b.len() implies b[i] == 0 by {
                if i > 0 {
                    assert(b[i] == b.drop_first()[i - 1]);
                }
            }
        }
    }
}

/// Whichever byte order the machine has, bytes read as an integer give zero
/// exactly when all of them are zero.
proof fn lemma_native_zero(b: Seq<u8>, v: nat)
    requires
        native_value(b, v),
    ensures
        (v == 0) <==> (forall|i: int| 0 <= i < b.len() ==> b[i] == 0),
{
    lemma_little_endian_zero(b);
    lemma_little_endian_zero(b.reverse());
    if forall|i: int| 0 <= i < b.len() ==> b[i] == 0 {
        assert forall|i: int| 0 <= i < b.reverse().len() implies b.reverse()[i] == 0 by {
            assert(b.reverse()[i] == b[b.len() - 1 - i]);
        }
    }
    if forall|i: int| 0 <= i < b.reverse().len() ==> b.reverse()[i] == 0 {
        assert forall|i: int| 0 <= i < b.len() implies b[i] == 0 by {
            assert(b.reverse()[b.len() - 1 - i] == b[i]);
        }
    }
}

/// The address is all zero octets.
pub open spec fn ip_is_zero(ip: IpAddr) -> bool {
    forall|i: int| 0 <= i < ip_octets(ip).len() ==> #[trigger] ip_octets(ip)[i] == 0
}

/// The octets of an address, in network order.
pub open spec fn ip_octets(ip: IpAddr) -> Seq<u8> {
    match ip {
        IpAddr::V4(a) => a@,
        IpAddr::V6(a) => a@,
    }
}

/// The address as an integer whose memory holds its octets in network
/// order, as a map key of the filter wants it.
pub fn ip_to_bytes(ip: IpAddr) -> (v: u128)
    ensures
        native_value(ip_octets(ip), v as nat),
        (v == 0) <==> ip_is_zero(ip),
        ip is V4 ==> v <= u32::MAX,
{
    let v = match ip {
        IpAddr::V4(a) => native_u32(a) as u128,
        IpAddr::V6(a) => native_u128(a),
    };
    proof {
        lemma_native_zero(ip_octets(ip), v as nat);
    }
    v
}

/// The key of the flow to mirror: addresses and ports as the machine stores
/// them in network order, absent fields zero, and the IP version that of
/// the source address (IPv4 when none is given).
pub fn flow_key(
    saddr: Option<IpAddr>,
    daddr: Option<IpAddr>,
    sport: Option<u16>,
    dport: Option<u16>,
    proto: Option<u8>,
) -> (k: FlowKey)
    ensures
        k.ip_version == (if saddr matches Some(IpAddr::V6(_)) { 6u8 } else { 4u8 }),
        saddr matches Some(ip) ==> native_value(ip_octets(ip), k.saddr as nat),
        daddr matches Some(ip) ==> native_value(ip_octets(ip), k.daddr as nat),
        sport matches Some(p) ==> k.sport == p || k.sport == swap_bytes16(p),
        dport matches Some(p) ==> k.dport == p || k.dport == swap_bytes16(p),
        (k.saddr == 0) <==> (saddr matches Some(ip) ==> ip_is_zero(ip)),
        (k.daddr == 0) <==> (daddr matches Some(ip) ==> ip_is_zero(ip)),
        (k.sport == 0) <==> (sport matches Some(p) ==> p == 0),
        (k.dport == 0) <==> (dport matches Some(p) ==> p == 0),
        k.proto == (match proto {
            Some(p) => p,
            None => 0u8,
        }),
{
    let zero: [u8; 4] = [0, 0, 0, 0];
    assert(zero@ =~= seq![0u8, 0u8, 0u8, 0u8]);
    let sip = match saddr {
        Some(ip) => ip,
        None => IpAddr::V4(zero),
    };
    let dip = match daddr {
        Some(ip) => ip,
        None => IpAddr::V4(zero),
    };
    let ip_version: u8 = match sip {
        IpAddr::V4(_) => 4,
        IpAddr::V6(_) => 6,
    };
    let sp = match sport {
        Some(p) => p,
        None => 0,
    };
    let dp = match dport {
        Some(p) => p,
        None => 0,
    };
    let pr = match proto {
        Some(p) => p,
        None => 0,
    };
    FlowKey {
        saddr: ip_to_bytes(sip),
        daddr: ip_to_bytes(dip),
        sport: big_endian_u16(sp),
        dport: big_endian_u16(dp),
        proto: pr,
        ip_version,
    }
}

/// The fields that the filter matches on: the bit of each field of the key
/// that is not zero.
pub open spec fn hash_type_of(k: FlowKey) -> u8 {
    ((if k.saddr != 0 { 1int } else { 0 }) + (if k.daddr != 0 { 2int } else { 0 }) + (if k.proto
        != 0 { 4int } else { 0 }) + (if k.sport != 0 { 8int } else { 0 }) + (if k.dport != 0 {
        16int
    } else {
        0
    })) as u8
}

/// The five flag bits, each set or clear, add up to a value whose bits are
/// exactly those flags.
proof fn lemma_flag_bits(a: u8, b: u8, c: u8, d: u8, e: u8)
    by (bit_vector)
    requires
        a == 0 || a == 1,
        b == 0 || b == 2,
        c == 0 || c == 4,
        d == 0 || d == 8,
        e == 0 || e == 16,
    ensures
        (a + b + c + d + e) as u8 & 1 == a,
        (a + b + c + d + e) as u8 & 2 == b,
        (a + b + c + d + e) as u8 & 4 == c,
        (a + b + c + d + e) as u8 & 8 == d,
        (a + b + c + d + e) as u8 & 16 == e,
        (a + b + c + d + e) as u8 & 0xe0 == 0,
{
}

/// Law of the filter's flags: each field of the key sets its own flag, and
/// only it: `HASH_TYPE_SRC` exactly when the source address is given,
/// `HASH_TYPE_DST` for the destination address, `HASH_TYPE_PROTO` for the
/// protocol, `HASH_TYPE_SPORT` for the source port and `HASH_TYPE_DPORT`
/// for the destination port; no other bit is set.
pub proof fn lemma_hash_type_bits(k: FlowKey)
    ensures
        hash_type_of(k) & HASH_TYPE_SRC == (if k.saddr != 0 { HASH_TYPE_SRC } else { 0 }),
        hash_type_of(k) & HASH_TYPE_DST == (if k.daddr != 0 { HASH_TYPE_DST } else { 0 }),
        hash_type_of(k) & HASH_TYPE_PROTO == (if k.proto != 0 { HASH_TYPE_PROTO } else { 0 }),
        hash_type_of(k) & HASH_TYPE_SPORT == (if k.sport != 0 { HASH_TYPE_SPORT } else { 0 }),
        hash_type_of(k) & HASH_TYPE_DPORT == (if k.dport != 0 { HASH_TYPE_DPORT } else { 0 }),
        hash_type_of(k) & 0xe0 == 0,
{
    let a: u8 = if k.saddr != 0 { 1 } else { 0 };
    let b: u8 = if k.daddr != 0 { 2 } else { 0 };
    let c: u8 = if k.proto != 0 { 4 } else { 0 };
    let d: u8 = if k.sport != 0 { 8 } else { 0 };
    let e: u8 = if k.dport != 0 { 16 } else { 0 };
    lemma_flag_bits(a, b, c, d, e);
    assert(hash_type_of(k) == (a + b + c + d + e) as u8);
}

/// The bits of the fields that the filter matches on.
pub fn hash_type_flags(k: &FlowKey) -> (flags: u8)
    ensures
        flags == hash_type_of(*k),
        flags & HASH_TYPE_SRC == (if k.saddr != 0 { HASH_TYPE_SRC } else { 0 }),
        flags & HASH_TYPE_DST == (if k.daddr != 0 { HASH_TYPE_DST } else { 0 }),
        flags & HASH_TYPE_PROTO == (if k.proto != 0 { HASH_TYPE_PROTO } else { 0 }),
        flags & HASH_TYPE_SPORT == (if k.sport != 0 { HASH_TYPE_SPORT } else { 0 }),
        flags & HASH_TYPE_DPORT == (if k.dport != 0 { HASH_TYPE_DPORT } else { 0 }),
        flags & 0xe0 == 0,
{
    proof {
        lemma_hash_type_bits(*k);
    }
    let mut flags: u8 = 0;
    if k.saddr != 0 {
        flags = flags + HASH_TYPE_SRC;
    }
    if k.daddr != 0 {
        flags = flags + HASH_TYPE_DST;
    }
    if k.proto != 0 {
        flags = flags + HASH_TYPE_PROTO;
    }
    if k.sport != 0 {
        flags = flags + HASH_TYPE_SPORT;
    }
    if k.dport != 0 {
        flags = flags + HASH_TYPE_DPORT;
    }
    flags
}

} // verus!
