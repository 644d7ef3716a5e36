//! The Management Address TLV: an address at which the sender is managed.
use vstd::prelude::*;
use crate::ip::{IpAddr, ip_has_octets, octets4, octets16};
use crate::lldp::tlv::TlvType;

verus! {

#[derive(Debug)]
pub struct ManagementAddress {
    pub tlv_type: TlvType,
    pub len: u16,
    pub value: IpAddr,
}

/// The address that an address family byte and the bytes after it name:
/// family 1 is IPv4, family 2 is IPv6, any other family gives `0.0.0.0`.
pub open spec fn address_of(family: u8, octets: Seq<u8>, ip: IpAddr) -> bool {
    if family == 1 {
        ip_has_octets(ip, octets.take(4))
    } else if family == 2 {
        ip_has_octets(ip, octets.take(16))
    } else {
        ip_has_octets(ip, seq![0u8, 0u8, 0u8, 0u8])
    }
}

/// The address bytes that a family needs after the family byte.
pub open spec fn address_fits(family: u8, octets: Seq<u8>) -> bool {
    (family == 1 ==> octets.len() >= 4) && (family == 2 ==> octets.len() >= 16)
}

impl ManagementAddress {
    /// The value holds the address-length and family bytes and the address
    /// that the family asks for.
    pub open spec fn accepts(len: u16, value: Seq<u8>) -> bool {
        value.len() >= 2 && address_fits(value[1], value.skip(2))
    }

    /// This TLV holds the address that the family byte (the second byte)
    /// and the bytes after it name; the first byte is not read.
    pub open spec fn decoded_from(self, len: u16, value: Seq<u8>) -> bool {
        &&& self.tlv_type == TlvType::ManagementAddress
        &&& self.len == len
        &&& address_of(value[1], value.skip(2), self.value)
    }

    /// Decodes the value of a Management Address TLV: family 1 is the IPv4
    /// address in bytes 2 to 6, family 2 the IPv6 address in bytes 2 to 18,
    /// and any other family gives `0.0.0.0`.
    pub fn parser(len: u16, value: &[u8]) -> (t: Self)
        requires
            Self::accepts(len, value@),
        ensures
            t.decoded_from(len, value@),
            t.tlv_type == TlvType::ManagementAddress,
            t.len == len,
            value@[1] == 1 ==> (t.value matches IpAddr::V4(a) && a@ == value@.subrange(2, 6)),
            value@[1] == 2 ==> (t.value matches IpAddr::V6(a) && a@ == value@.subrange(2, 18)),
            value@[1] != 1 && value@[1] != 2 ==> (t.value matches IpAddr::V4(a) && a@ == seq![0u8, 0u8, 0u8, 0u8]),
    {
        let addr_type = value[1];
        let ip = if addr_type == 1 {
            let a = octets4(value, 2);
            assert(a@ =~= value@.skip(2).take(4));
            assert(value@.skip(2).take(4) =~= value@.subrange(2, 6));
            IpAddr::V4(a)
        } else if addr_type == 2 {
            let a = octets16(value, 2);
            assert(a@ =~= value@.skip(2).take(16));
            assert(value@.skip(2).take(16) =~= value@.subrange(2, 18));
            IpAddr::V6(a)
        } else {
            let a: [u8; 4] = [0, 0, 0, 0];
            assert(a@ =~= seq![0u8, 0u8, 0u8, 0u8]);
            IpAddr::V4(a)
        };
        Self { tlv_type: TlvType::ManagementAddress, len: len, value: ip }
    }
}

/// Law of the Management Address TLV: a decoded address is the IPv4
/// address in value bytes 2 to 6 for family 1, the IPv6 address in value
/// bytes 2 to 18 for family 2, and `0.0.0.0` for any other family.
pub proof fn lemma_management_address_families(t: ManagementAddress, len: u16, value: Seq<u8>)
    requires
        ManagementAddress::accepts(len, value),
        t.decoded_from(len, value),
    ensures
        value[1] == 1 ==> (t.value matches IpAddr::V4(a) && a@ == value.subrange(2, 6)),
        value[1] == 2 ==> (t.value matches IpAddr::V6(a) && a@ == value.subrange(2, 18)),
        value[1] != 1 && value[1] != 2 ==> (t.value matches IpAddr::V4(a) && a@ == seq![0u8, 0u8, 0u8, 0u8]),
{
    if value[1] == 1 {
        assert(value.skip(2).take(4) =~= value.subrange(2, 6));
    } else if value[1] == 2 {
        assert(value.skip(2).take(16) =~= value.subrange(2, 18));
    }
}

} // verus!
