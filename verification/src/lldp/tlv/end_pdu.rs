//! The End Of LLDPDU TLV, which closes a data unit.
use vstd::prelude::*;
use crate::lldp::tlv::TlvType;

verus! {

#[derive(Debug)]
pub struct EndOfPdu {
    pub tlv_type: TlvType,
    pub len: u16,
}

impl EndOfPdu {
    /// This TLV is the end marker, of length 0.
    pub open spec fn is_end(self) -> bool {
        &&& self.tlv_type == TlvType::EndOfLLDPDU
        &&& self.len == 0
    }

    /// The end marker.
    pub fn new() -> (t: Self)
        ensures
            t.is_end(),
    {
        Self { tlv_type: TlvType::EndOfLLDPDU, len: 0 }
    }
}

} // verus!
