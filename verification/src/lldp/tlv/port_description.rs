//! The Port Description TLV: a textual description of the sending port.
use vstd::prelude::*;
use crate::lldp::tlv::TlvType;
use crate::text::{decoded_text, lossy_string};

verus! {

#[derive(Debug)]
pub struct PortDescription {
    pub tlv_type: TlvType,
    pub len: u16,
    pub value: String,
}

impl PortDescription {
    /// The value bytes hold at least `len` bytes.
    pub open spec fn accepts(len: u16, value: Seq<u8>) -> bool {
        len <= value.len()
    }

    /// This TLV is what `value` decodes to: its first `len` bytes, decoded
    /// as UTF-8 with invalid sequences replaced.
    pub open spec fn decoded_from(self, len: u16, value: Seq<u8>) -> bool {
        &&& self.tlv_type == TlvType::PortDescription
        &&& self.len == len
        &&& decoded_text(self.value@, value.take(len as int))
    }

    /// Decodes the value of a Port Description TLV.
    pub fn parser(len: u16, value: &[u8]) -> (t: Self)
        requires
            Self::accepts(len, value@),
        ensures
            t.decoded_from(len, value@),
    {
        let text = lossy_string(&value[0..len as usize]);
        assert(value@.subrange(0, len as int) =~= value@.take(len as int));
        Self { tlv_type: TlvType::PortDescription, len: len, value: text }
    }
}

} // verus!
