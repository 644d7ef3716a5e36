//! TLVs of a reserved type code, kept as raw bytes.
use vstd::prelude::*;
use crate::lldp::tlv::TlvType;

verus! {

#[derive(Debug)]
pub struct Reserved {
    pub tlv_type: TlvType,
    pub len: u16,
    pub value: Vec<u8>,
}

impl Reserved {
    /// The value bytes hold at least `len` bytes.
    pub open spec fn accepts(len: u16, value: Seq<u8>) -> bool {
        len <= value.len()
    }

    /// This TLV keeps its type code and the first `len` bytes of `value`.
    pub open spec fn decoded_from(self, tlv_type: u8, len: u16, value: Seq<u8>) -> bool {
        &&& self.tlv_type == TlvType::Reserved(tlv_type)
        &&& self.len == len
        &&& self.value@ == value.take(len as int)
    }

    /// Decodes the value of a TLV of reserved type `tlv_type`.
    pub fn parser(tlv_type: u8, len: u16, value: &[u8]) -> (t: Self)
        requires
            Self::accepts(len, value@),
        ensures
            t.decoded_from(tlv_type, len, value@),
    {
        let bytes = vstd::slice::slice_to_vec(&value[0..len as usize]);
        assert(bytes@ =~= value@.take(len as int));
        Self { tlv_type: TlvType::Reserved(tlv_type), len: len, value: bytes }
    }
}

} // verus!
