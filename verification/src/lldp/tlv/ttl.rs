//! The Time To Live TLV: how long, in seconds, the sender's data stays valid.
use vstd::prelude::*;
use crate::lldp::tlv::TlvType;

verus! {

/// Big-endian value of two bytes.
pub open spec fn be16(hi: u8, lo: u8) -> u16 {
    (hi * 256 + lo) as u16
}

/// Big-endian value of the two bytes that start at `start`.
pub fn read_be16(bytes: &[u8], start: usize) -> (v: u16)
    requires
        start + 2 <= bytes@.len(),
    ensures
        v == be16(bytes@[start as int], bytes@[start + 1]),
{
    (bytes[start] as u16) * 256 + (bytes[start + 1] as u16)
}

#[derive(Debug)]
pub struct Ttl {
    pub tlv_type: TlvType,
    pub len: u16,
    pub value: u16,
}

impl Ttl {
    /// The value bytes that the decoder can read: at least the two of the
    /// time to live.
    pub open spec fn accepts(len: u16, value: Seq<u8>) -> bool {
        value.len() >= 2
    }

    /// This TLV is what `value` decodes to: the big-endian time to live in
    /// its first two bytes, with the length recorded as 2.
    pub open spec fn decoded_from(self, len: u16, value: Seq<u8>) -> bool {
        &&& self.tlv_type == TlvType::Ttl
        &&& self.len == 2
        &&& self.value == be16(value[0], value[1])
    }

    /// Decodes the value of a Time To Live TLV.
    pub fn parser(_len: u16, value: &[u8]) -> (t: Self)
        requires
            Self::accepts(_len, value@),
        ensures
            t.decoded_from(_len, value@),
            t.value == value@[0] * 256 + value@[1],
    {
        Self { tlv_type: TlvType::Ttl, len: 2, value: read_be16(value, 0) }
    }
}

} // verus!
