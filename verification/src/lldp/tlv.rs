//! The TLVs (type, length, value) that an LLDP data unit is made of.
pub mod capabilities;
pub mod chassis_id;
pub mod end_pdu;
pub mod management_address;
pub mod org_specific;
pub mod port_description;
pub mod port_id;
pub mod reserved;
pub mod sys_description;
pub mod sys_name;
pub mod ttl;

use vstd::prelude::*;
use crate::ip::IpAddr;

verus! {

/// A decoded TLV.
#[derive(Debug)]
pub enum Tlv {
    ChassisId(chassis_id::ChassisId),
    PortId(port_id::PortId),
    Ttl(ttl::Ttl),
    PortDescription(port_description::PortDescription),
    SystemName(sys_name::SystemName),
    SystemDescription(sys_description::SystemDescription),
    Capabilities(capabilities::SystemCapabilities),
    ManagementAddress(management_address::ManagementAddress),
    OrganizationSpecific(org_specific::OrganizationSpecific),
    Reserved(reserved::Reserved),
    EndOfPdu(end_pdu::EndOfPdu),
}

/// The kind of a TLV, as its 7-bit type code names it.
#[derive(Debug, Clone, Copy, PartialEq, Eq, Structural)]
pub enum TlvType {
    EndOfLLDPDU,
    ChassisId,
    PortId,
    Ttl,
    PortDescription,
    SystemName,
    SystemDescription,
    SystemCapabilities,
    ManagementAddress,
    OrganizationSpecific,
    Reserved(u8),
}

/// The kind that a type code names: codes 0 to 8 and 127 are the standard
/// kinds, every other code is reserved.
pub open spec fn tlv_type_of(v: u8) -> TlvType {
    if v == 0 {
        TlvType::EndOfLLDPDU
    } else if v == 1 {
        TlvType::ChassisId
    } else if v == 2 {
        TlvType::PortId
    } else if v == 3 {
        TlvType::Ttl
    } else if v == 4 {
        TlvType::PortDescription
    } else if v == 5 {
        TlvType::SystemName
    } else if v == 6 {
        TlvType::SystemDescription
    } else if v == 7 {
        TlvType::SystemCapabilities
    } else if v == 8 {
        TlvType::ManagementAddress
    } else if v == 127 {
        TlvType::OrganizationSpecific
    } else {
        TlvType::Reserved(v)
    }
}

impl TlvType {
    /// The type code of a kind; a reserved kind carries its own code.
    pub open spec fn type_code(self) -> u8 {
        match self {
            TlvType::EndOfLLDPDU => 0,
            TlvType::ChassisId => 1,
            TlvType::PortId => 2,
            TlvType::Ttl => 3,
            TlvType::PortDescription => 4,
            TlvType::SystemName => 5,
            TlvType::SystemDescription => 6,
            TlvType::SystemCapabilities => 7,
            TlvType::ManagementAddress => 8,
            TlvType::OrganizationSpecific => 127,
            TlvType::Reserved(n) => n,
        }
    }

    /// A reserved kind that carries a code of a standard kind does not come
    /// out of decoding.
    pub open spec fn is_canonical(self) -> bool {
        match self {
            TlvType::Reserved(n) => !(n <= 8 || n == 127),
            _ => true,
        }
    }

    /// The type code of this kind.
    pub fn code(&self) -> (c: u8)
        ensures
            c == self.type_code(),
    {
        match self {
            TlvType::EndOfLLDPDU => 0,
            TlvType::ChassisId => 1,
            TlvType::PortId => 2,
            TlvType::Ttl => 3,
            TlvType::PortDescription => 4,
            TlvType::SystemName => 5,
            TlvType::SystemDescription => 6,
            TlvType::SystemCapabilities => 7,
            TlvType::ManagementAddress => 8,
            TlvType::OrganizationSpecific => 127,
            TlvType::Reserved(n) => *n,
        }
    }
}

impl From<u8> for TlvType {
    fn from(v: u8) -> (t: Self) {
        match v {
            0 => Self::EndOfLLDPDU,
            1 => Self::ChassisId,
            2 => Self::PortId,
            3 => Self::Ttl,
            4 => Self::PortDescription,
            5 => Self::SystemName,
            6 => Self::SystemDescription,
            7 => Self::SystemCapabilities,
            8 => Self::ManagementAddress,
            127 => Self::OrganizationSpecific,
            n => Self::Reserved(n),
        }
    }
}

impl vstd::std_specs::convert::FromSpecImpl<u8> for TlvType {
    open spec fn obeys_from_spec() -> bool {
        true
    }

    open spec fn from_spec(v: u8) -> Self {
        tlv_type_of(v)
    }
}

/// Reading a type code back from the kind it names gives the code.
pub proof fn lemma_tlv_type_code_roundtrip(v: u8)
    ensures
        tlv_type_of(v).type_code() == v,
        tlv_type_of(v).is_canonical(),
{
}

/// Every kind that decoding produces is the one its code names.
pub proof fn lemma_tlv_type_of_code(t: TlvType)
    requires
        t.is_canonical(),
    ensures
        tlv_type_of(t.type_code()) == t,
{
}

/// The value bytes that decoding a TLV of type code `ty` and length `len`
/// reads: what the parser of its kind accepts.
pub open spec fn tlv_accepts(ty: u8, len: u16, value: Seq<u8>) -> bool {
    match tlv_type_of(ty) {
        TlvType::ChassisId => chassis_id::ChassisId::accepts(len, value),
        TlvType::PortId => port_id::PortId::accepts(len, value),
        TlvType::Ttl => ttl::Ttl::accepts(len, value),
        TlvType::PortDescription => port_description::PortDescription::accepts(len, value),
        TlvType::SystemName => sys_name::SystemName::accepts(len, value),
        TlvType::SystemDescription => sys_description::SystemDescription::accepts(len, value),
        TlvType::SystemCapabilities => capabilities::SystemCapabilities::accepts(len, value),
        TlvType::ManagementAddress => management_address::ManagementAddress::accepts(len, value),
        TlvType::OrganizationSpecific => org_specific::OrganizationSpecific::accepts(len, value),
        TlvType::EndOfLLDPDU => true,
        TlvType::Reserved(_) => reserved::Reserved::accepts(len, value),
    }
}

/// `t` is the TLV that type code `ty`, length `len` and the value bytes
/// `value` (all that follow the header) decode to: the variant that the
/// kind names, decoded by the parser of that kind.
pub open spec fn tlv_decoded(t: Tlv, ty: u8, len: u16, value: Seq<u8>) -> bool {
    match tlv_type_of(ty) {
        TlvType::ChassisId => t matches Tlv::ChassisId(x) && x.decoded_from(len, value),
        TlvType::PortId => t matches Tlv::PortId(x) && x.decoded_from(len, value),
        TlvType::Ttl => t matches Tlv::Ttl(x) && x.decoded_from(len, value),
        TlvType::PortDescription => t matches Tlv::PortDescription(x) && x.decoded_from(len, value),
        TlvType::SystemName => t matches Tlv::SystemName(x) && x.decoded_from(len, value),
        TlvType::SystemDescription => t matches Tlv::SystemDescription(x) && x.decoded_from(
            len,
            value,
        ),
        TlvType::SystemCapabilities => t matches Tlv::Capabilities(x) && x.decoded_from(len, value),
        TlvType::ManagementAddress => t matches Tlv::ManagementAddress(x) && x.decoded_from(
            len,
            value,
        ),
        TlvType::OrganizationSpecific => t matches Tlv::OrganizationSpecific(x) && x.decoded_from(
            len,
            value,
        ),
        TlvType::EndOfLLDPDU => t matches Tlv::EndOfPdu(x) && x.is_end(),
        TlvType::Reserved(n) => t matches Tlv::Reserved(x) && x.decoded_from(n, len, value),
    }
}

/// Two addresses hold the same octets.
pub open spec fn same_ip(a: IpAddr, b: IpAddr) -> bool {
    match (a, b) {
        (IpAddr::V4(x), IpAddr::V4(y)) => x@ == y@,
        (IpAddr::V6(x), IpAddr::V6(y)) => x@ == y@,
        _ => false,
    }
}

/// Two chassis identifiers hold the same: the same kind and contents.
pub open spec fn same_chassis_value(a: chassis_id::Value, b: chassis_id::Value) -> bool {
    match (a, b) {
        (chassis_id::Value::Mac(x), chassis_id::Value::Mac(y)) => x@ == y@,
        (chassis_id::Value::Ip(x), chassis_id::Value::Ip(y)) => same_ip(x, y),
        (chassis_id::Value::Str(x), chassis_id::Value::Str(y)) => x@ == y@,
        _ => false,
    }
}

/// Two port identifiers hold the same: the same kind and contents.
pub open spec fn same_port_value(a: port_id::Value, b: port_id::Value) -> bool {
    match (a, b) {
        (port_id::Value::Mac(x), port_id::Value::Mac(y)) => x@ == y@,
        (port_id::Value::Ip(x), port_id::Value::Ip(y)) => same_ip(x, y),
        (port_id::Value::Str(x), port_id::Value::Str(y)) => x@ == y@,
        _ => false,
    }
}

/// Two TLVs hold the same: the same kind, and equal fields, with texts,
/// byte lists and addresses compared by their contents.
pub open spec fn same_tlv(a: Tlv, b: Tlv) -> bool {
    match (a, b) {
        (Tlv::ChassisId(x), Tlv::ChassisId(y)) => x.tlv_type == y.tlv_type && x.len == y.len
            && x.subtype == y.subtype && same_chassis_value(x.value, y.value),
        (Tlv::PortId(x), Tlv::PortId(y)) => x.tlv_type == y.tlv_type && x.len == y.len && x.subtype
            == y.subtype && same_port_value(x.value, y.value),
        (Tlv::Ttl(x), Tlv::Ttl(y)) => x.tlv_type == y.tlv_type && x.len == y.len && x.value == y.value,
        (Tlv::PortDescription(x), Tlv::PortDescription(y)) => x.tlv_type == y.tlv_type && x.len
            == y.len && x.value@ == y.value@,
        (Tlv::SystemName(x), Tlv::SystemName(y)) => x.tlv_type == y.tlv_type && x.len == y.len
            && x.value@ == y.value@,
        (Tlv::SystemDescription(x), Tlv::SystemDescription(y)) => x.tlv_type == y.tlv_type && x.len
            == y.len && x.value@ == y.value@,
        (Tlv::Capabilities(x), Tlv::Capabilities(y)) => x.tlv_type == y.tlv_type && x.len == y.len
            && x.value.caps == y.value.caps && x.value.enabled_caps == y.value.enabled_caps,
        (Tlv::ManagementAddress(x), Tlv::ManagementAddress(y)) => x.tlv_type == y.tlv_type && x.len
            == y.len && same_ip(x.value, y.value),
        (Tlv::OrganizationSpecific(x), Tlv::OrganizationSpecific(y)) => x.tlv_type == y.tlv_type
            && x.len == y.len,
        (Tlv::Reserved(x), Tlv::Reserved(y)) => x.tlv_type == y.tlv_type && x.len == y.len
            && x.value@ == y.value@,
        (Tlv::EndOfPdu(x), Tlv::EndOfPdu(y)) => x.tlv_type == y.tlv_type && x.len == y.len,
        _ => false,
    }
}

/// Decoding is a function of the bytes: two TLVs decoded from the same type
/// code, length and value bytes hold the same.
pub proof fn lemma_decoding_determined(a: Tlv, b: Tlv, ty: u8, len: u16, value: Seq<u8>)
    requires
        tlv_decoded(a, ty, len, value),
        tlv_decoded(b, ty, len, value),
    ensures
        same_tlv(a, b),
{
}

/// Whether the value bytes can be decoded as a TLV of type code `ty` and
/// length `len`.
pub fn tlv_value_fits(ty: u8, len: u16, value: &[u8]) -> (ok: bool)
    ensures
        ok == tlv_accepts(ty, len, value@),
{
    let n = value.len();
    match TlvType::from(ty) {
        TlvType::ChassisId | TlvType::PortId => {
            if n < 1 {
                false
            } else {
                let mac_len: usize = if ty == 1 { 6 } else { 7 };
                let is_mac = if ty == 1 { value[0] == 4 } else { value[0] == 3 };
                let is_net = if ty == 1 { value[0] == 5 } else { value[0] == 4 };
                if is_mac {
                    n >= mac_len
                } else if is_net {
                    if n < 2 {
                        false
                    } else if value[1] == 1 {
                        n >= 6
                    } else if value[1] == 2 {
                        n >= 18
                    } else {
                        2 <= len && len as usize <= n
                    }
                } else {
                    1 <= len && len as usize <= n
                }
            }
        },
        TlvType::Ttl => n >= 2,
        TlvType::SystemCapabilities => n >= 4,
        TlvType::ManagementAddress => {
            if n < 2 {
                false
            } else {
                (value[1] != 1 || n >= 6) && (value[1] != 2 || n >= 18)
            }
        },
        TlvType::OrganizationSpecific | TlvType::EndOfLLDPDU => true,
        _ => len as usize <= n,
    }
}

/// Decodes one TLV from its type code, its length, and the bytes that
/// follow its header.
pub fn decode_tlv(ty: u8, len: u16, value: &[u8]) -> (t: Tlv)
    requires
        tlv_accepts(ty, len, value@),
    ensures
        tlv_decoded(t, ty, len, value@),
{
    match TlvType::from(ty) {
        TlvType::ChassisId => Tlv::ChassisId(chassis_id::ChassisId::parser(len, value)),
        TlvType::PortId => Tlv::PortId(port_id::PortId::parser(len, value)),
        TlvType::Ttl => Tlv::Ttl(ttl::Ttl::parser(len, value)),
        TlvType::PortDescription => Tlv::PortDescription(
            port_description::PortDescription::parser(len, value),
        ),
        TlvType::SystemName => Tlv::SystemName(sys_name::SystemName::parser(len, value)),
        TlvType::SystemDescription => Tlv::SystemDescription(
            sys_description::SystemDescription::parser(len, value),
        ),
        TlvType::SystemCapabilities => Tlv::Capabilities(
            capabilities::SystemCapabilities::parser(len, value),
        ),
        TlvType::ManagementAddress => Tlv::ManagementAddress(
            management_address::ManagementAddress::parser(len, value),
        ),
        TlvType::OrganizationSpecific => Tlv::OrganizationSpecific(
            org_specific::OrganizationSpecific::parser(len, value),
        ),
        TlvType::EndOfLLDPDU => Tlv::EndOfPdu(end_pdu::EndOfPdu::new()),
        TlvType::Reserved(t) => Tlv::Reserved(reserved::Reserved::parser(t, len, value)),
    }
}

} // verus!
