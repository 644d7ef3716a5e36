//! The Port ID TLV: what identifies the sending port.
use vstd::prelude::*;
use crate::ip::{IpAddr, ip_has_octets, octets4, octets16};
use crate::lldp::tlv::TlvType;
use crate::text::{decoded_text, lossy_string};

verus! {

#[derive(Debug)]
pub struct PortId {
    pub tlv_type: TlvType,
    pub len: u16,
    pub subtype: SubType,
    pub value: Value,
}

/// How a port is identified.
#[derive(Debug, Clone, Copy, PartialEq, Eq, Structural)]
pub enum SubType {
    InterfaceAlias,
    Port,
    Mac,
    NetworkAddress,
    InterfaceName,
    CircuitId,
    Local,
    Unknown(u8),
}

/// The subtype that a subtype code names: 1 to 7 are the standard ones.
pub open spec fn subtype_of(v: u8) -> SubType {
    if v == 1 {
        SubType::InterfaceAlias
    } else if v == 2 {
        SubType::Port
    } else if v == 3 {
        SubType::Mac
    } else if v == 4 {
        SubType::NetworkAddress
    } else if v == 5 {
        SubType::InterfaceName
    } else if v == 6 {
        SubType::CircuitId
    } else if v == 7 {
        SubType::Local
    } else {
        SubType::Unknown(v)
    }
}

impl SubType {
    /// The code of a subtype; an unknown subtype carries its own code.
    pub open spec fn subtype_code(self) -> u8 {
        match self {
            SubType::InterfaceAlias => 1,
            SubType::Port => 2,
            SubType::Mac => 3,
            SubType::NetworkAddress => 4,
            SubType::InterfaceName => 5,
            SubType::CircuitId => 6,
            SubType::Local => 7,
            SubType::Unknown(n) => n,
        }
    }

    /// The code of this subtype.
    pub fn code(&self) -> (c: u8)
        ensures
            c == self.subtype_code(),
    {
        match self {
            SubType::InterfaceAlias => 1,
            SubType::Port => 2,
            SubType::Mac => 3,
            SubType::NetworkAddress => 4,
            SubType::InterfaceName => 5,
            SubType::CircuitId => 6,
            SubType::Local => 7,
            SubType::Unknown(n) => *n,
        }
    }
}

impl From<u8> for SubType {
    fn from(v: u8) -> (t: Self) {
        match v {
            1 => Self::InterfaceAlias,
            2 => Self::Port,
            3 => Self::Mac,
            4 => Self::NetworkAddress,
            5 => Self::InterfaceName,
            6 => Self::CircuitId,
            7 => Self::Local,
            n => Self::Unknown(n),
        }
    }
}

impl vstd::std_specs::convert::FromSpecImpl<u8> for SubType {
    open spec fn obeys_from_spec() -> bool {
        true
    }

    open spec fn from_spec(v: u8) -> Self {
        subtype_of(v)
    }
}

/// Reading a subtype code back from the subtype it names gives the code.
pub proof fn lemma_subtype_code_roundtrip(v: u8)
    ensures
        subtype_of(v).subtype_code() == v,
{
}

/// A port identifier.
#[derive(Debug)]
pub enum Value {
    Mac([u8; 6]),
    Ip(IpAddr),
    Str(String),
}

impl PortId {
    /// The value bytes hold what the subtype asks for: the subtype byte; six
    /// bytes after it for a MAC address; the family byte and four or sixteen address
    /// bytes for an IPv4 or IPv6 network address; otherwise the first `len`
    /// bytes, past the subtype byte (and the family byte).
    pub open spec fn accepts(len: u16, value: Seq<u8>) -> bool {
        value.len() >= 1 && match subtype_of(value[0]) {
            SubType::Mac => value.len() >= 7,
            SubType::NetworkAddress => value.len() >= 2 && if value[1] == 1 {
                value.len() >= 6
            } else if value[1] == 2 {
                value.len() >= 18
            } else {
                2 <= len <= value.len()
            },
            _ => 1 <= len <= value.len(),
        }
    }

    /// This TLV is what `value` decodes to. The subtype is the first byte. A
    /// MAC address is the six bytes after the subtype byte. A
    /// network address of family 1 or 2 is the IPv4 or IPv6 address after
    /// the family byte; of another family it is the text of bytes 2 to
    /// `len`. Any other subtype gives the text of bytes 1 to `len`.
    pub open spec fn decoded_from(self, len: u16, value: Seq<u8>) -> bool {
        &&& self.tlv_type == TlvType::PortId
        &&& self.len == len
        &&& self.subtype == subtype_of(value[0])
        &&& match subtype_of(value[0]) {
            SubType::Mac => self.value matches Value::Mac(m) && m@ == value.subrange(1, 7),
            SubType::NetworkAddress => if value[1] == 1 {
                self.value matches Value::Ip(ip) && ip_has_octets(ip, value.subrange(2, 6))
            } else if value[1] == 2 {
                self.value matches Value::Ip(ip) && ip_has_octets(ip, value.subrange(2, 18))
            } else {
                self.value matches Value::Str(s) && decoded_text(s@, value.subrange(2, len as int))
            },
            _ => self.value matches Value::Str(s) && decoded_text(s@, value.subrange(1, len as int)),
        }
    }

    /// Decodes the value of a Chassis ID TLV.
    pub fn parser(len: u16, value: &[u8]) -> (t: Self)
        requires
            Self::accepts(len, value@),
        ensures
            t.decoded_from(len, value@),
    {
        let subtype = SubType::from(value[0]);
        let v = match subtype {
            SubType::Mac => {
                let m = [value[1], value[2], value[3], value[4], value[5], value[6]];
                assert(m@ =~= value@.subrange(1, 7));
                Value::Mac(m)
            },
            SubType::NetworkAddress => {
                if value[1] == 1 {
                    Value::Ip(IpAddr::V4(octets4(value, 2)))
                } else if value[1] == 2 {
                    Value::Ip(IpAddr::V6(octets16(value, 2)))
                } else {
                    Value::Str(lossy_string(&value[2..len as usize]))
                }
            },
            _ => Value::Str(lossy_string(&value[1..len as usize])),
        };
        PortId { tlv_type: TlvType::PortId, len: len, subtype: subtype, value: v }
    }
}

} // verus!
