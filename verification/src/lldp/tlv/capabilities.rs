//! The System Capabilities TLV: what the sender can do, and what of it is
//! enabled.
use vstd::prelude::*;
use crate::lldp::tlv::TlvType;
use crate::lldp::tlv::ttl::{be16, read_be16};

verus! {

/// A capability, as one bit of the capability masks.
#[derive(Debug, Clone, Copy, PartialEq, Eq, Structural)]
pub enum Capability {
    Other,
    Repeater,
    Bridge,
    WlanAP,
    Router,
    Telephone,
    DocsisDevice,
    StationOnly,
    CVlanComponent,
    SVlanComponent,
    TwoPortMacRelay,
}

impl Capability {
    /// The bit of this capability in a capability mask.
    pub open spec fn mask_bit(self) -> u16 {
        match self {
            Capability::Other => 1,
            Capability::Repeater => 2,
            Capability::Bridge => 4,
            Capability::WlanAP => 8,
            Capability::Router => 16,
            Capability::Telephone => 32,
            Capability::DocsisDevice => 64,
            Capability::StationOnly => 128,
            Capability::CVlanComponent => 256,
            Capability::SVlanComponent => 512,
            Capability::TwoPortMacRelay => 1024,
        }
    }

    /// The bit of this capability in a capability mask.
    pub fn bit(&self) -> (b: u16)
        ensures
            b == self.mask_bit(),
    {
        match self {
            Capability::Other => 1,
            Capability::Repeater => 2,
            Capability::Bridge => 4,
            Capability::WlanAP => 8,
            Capability::Router => 16,
            Capability::Telephone => 32,
            Capability::DocsisDevice => 64,
            Capability::StationOnly => 128,
            Capability::CVlanComponent => 256,
            Capability::SVlanComponent => 512,
            Capability::TwoPortMacRelay => 1024,
        }
    }
}

#[derive(Debug)]
pub struct SystemCapabilities {
    pub tlv_type: TlvType,
    pub len: u16,
    pub value: Value,
}

/// The supported and the enabled capability masks.
#[derive(Debug, Clone, Copy, PartialEq, Eq, Structural)]
pub struct Value {
    pub caps: u16,
    pub enabled_caps: u16,
}

impl SystemCapabilities {
    /// The value bytes hold the two masks.
    pub open spec fn accepts(len: u16, value: Seq<u8>) -> bool {
        value.len() >= 4
    }

    /// This TLV holds the big-endian masks of the first four bytes, with the
    /// length recorded as 4.
    pub open spec fn decoded_from(self, len: u16, value: Seq<u8>) -> bool {
        &&& self.tlv_type == TlvType::SystemCapabilities
        &&& self.len == 4
        &&& self.value.caps == be16(value[0], value[1])
        &&& self.value.enabled_caps == be16(value[2], value[3])
    }

    /// Decodes the value of a System Capabilities TLV.
    pub fn parser(_len: u16, value: &[u8]) -> (t: Self)
        requires
            Self::accepts(_len, value@),
        ensures
            t.decoded_from(_len, value@),
            t.value.caps == value@[0] * 256 + value@[1],
            t.value.enabled_caps == value@[2] * 256 + value@[3],
    {
        Self {
            tlv_type: TlvType::SystemCapabilities,
            len: 4,
            value: Value { caps: read_be16(value, 0), enabled_caps: read_be16(value, 2) },
        }
    }
}

} // verus!
