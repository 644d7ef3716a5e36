//! The Organizationally Specific TLV, of which only the length is kept.
use vstd::prelude::*;
use crate::lldp::tlv::TlvType;

verus! {

#[derive(Debug)]
pub struct OrganizationSpecific {
    pub tlv_type: TlvType,
    pub len: u16,
}

impl OrganizationSpecific {
    /// Any value is accepted: it is not read.
    pub open spec fn accepts(len: u16, value: Seq<u8>) -> bool {
        true
    }

    /// This TLV records the length it was given.
    pub open spec fn decoded_from(self, len: u16, value: Seq<u8>) -> bool {
        &&& self.tlv_type == TlvType::OrganizationSpecific
        &&& self.len == len
    }

    /// Decodes the value of an Organizationally Specific TLV.
    pub fn parser(len: u16, _value: &[u8]) -> (t: Self)
        ensures
            t.decoded_from(len, _value@),
    {
        Self { tlv_type: TlvType::OrganizationSpecific, len: len }
    }
}

} // verus!
