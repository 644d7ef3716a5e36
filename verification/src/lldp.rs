//! Link Layer Discovery Protocol: decoding of LLDP data units out of
//! Ethernet frames.
pub mod pdu;
pub mod tlv;

pub use pdu::Lldpdu;
pub use pdu::ParserError;
pub use tlv::Tlv;
pub use tlv::TlvType;
