use netkit::ip::IpAddr;
use netkit::lldp::tlv::chassis_id;
use netkit::lldp::tlv::port_id;
use netkit::lldp::tlv::{tlv_value_fits, Tlv, TlvType};
use netkit::lldp::{Lldpdu, ParserError};

fn tlv(ty: u8, value: &[u8]) -> Vec<u8> {
    let mut v = vec![ty << 1, value.len() as u8];
    v.extend_from_slice(value);
    v
}

fn frame(payload: &[u8]) -> Vec<u8> {
    let mut f = vec![0x01, 0x80, 0xc2, 0x00, 0x00, 0x0e, 0x00, 0x11, 0x22, 0x33, 0x44, 0x55, 0x88, 0xcc];
    f.extend_from_slice(payload);
    f
}

fn sample_payload() -> Vec<u8> {
    let mut p = Vec::new();
    p.extend(tlv(1, &[4, 0xaa, 0xbb, 0xcc, 0xdd, 0xee, 0xff]));
    p.extend(tlv(2, &[3, 0x10, 0x20, 0x30, 0x40, 0x50, 0x60]));
    p.extend(tlv(3, &[0x00, 0x78]));
    p.extend(tlv(4, b"eth0"));
    p.extend(tlv(5, b"switch1"));
    p.extend(tlv(6, b"a switch"));
    p.extend(tlv(7, &[0x00, 0x14, 0x00, 0x04]));
    p.extend(tlv(8, &[5, 1, 192, 168, 1, 1]));
    p.extend(tlv(127, &[0x00, 0x80, 0xc2, 0x01]));
    p.extend(tlv(0, &[]));
    p
}

#[test]
fn parser_rejects_other_ethertypes() {
    let mut f = frame(&sample_payload());
    f[12] = 0x08;
    f[13] = 0x00;
    assert_eq!(Lldpdu::parser(&f).unwrap_err(), ParserError::NotLLDP);
    assert_eq!(Lldpdu::parser(&[0x88, 0xcc]).unwrap_err(), ParserError::NotLLDP);
    assert!(!Lldpdu::is_lldp(&f));
    assert!(Lldpdu::is_lldp(&frame(&[])));
}

#[test]
fn parser_decodes_every_kind() {
    let f = frame(&sample_payload());
    let pdu = Lldpdu::parser(&f).unwrap();
    assert_eq!(pdu.tlvs.len(), 10);
    match &pdu.tlvs[0] {
        Tlv::ChassisId(c) => {
            assert_eq!(c.subtype, chassis_id::SubType::Mac);
            assert_eq!(c.len, 7);
            match &c.value {
                // the MAC value is read from the first six value bytes
                chassis_id::Value::Mac(m) => assert_eq!(*m, [4, 0xaa, 0xbb, 0xcc, 0xdd, 0xee]),
                other => panic!("unexpected {:?}", other),
            }
        }
        other => panic!("unexpected {:?}", other),
    }
    match &pdu.tlvs[1] {
        Tlv::PortId(p) => {
            assert_eq!(p.subtype, port_id::SubType::Mac);
            match &p.value {
                port_id::Value::Mac(m) => assert_eq!(*m, [0x10, 0x20, 0x30, 0x40, 0x50, 0x60]),
                other => panic!("unexpected {:?}", other),
            }
        }
        other => panic!("unexpected {:?}", other),
    }
    match &pdu.tlvs[2] {
        Tlv::Ttl(t) => {
            assert_eq!(t.value, 120);
            assert_eq!(t.len, 2);
            assert_eq!(t.tlv_type, TlvType::Ttl);
        }
        other => panic!("unexpected {:?}", other),
    }
    match &pdu.tlvs[3] {
        Tlv::PortDescription(d) => assert_eq!(d.value, "eth0"),
        other => panic!("unexpected {:?}", other),
    }
    match &pdu.tlvs[4] {
        Tlv::SystemName(n) => {
            assert_eq!(n.value, "switch1");
            assert_eq!(n.len, 7);
        }
        other => panic!("unexpected {:?}", other),
    }
    match &pdu.tlvs[5] {
        Tlv::SystemDescription(d) => assert_eq!(d.value, "a switch"),
        other => panic!("unexpected {:?}", other),
    }
    match &pdu.tlvs[6] {
        Tlv::Capabilities(c) => {
            assert_eq!(c.value.caps, 0x14);
            assert_eq!(c.value.enabled_caps, 0x04);
            assert_eq!(c.len, 4);
        }
        other => panic!("unexpected {:?}", other),
    }
    match &pdu.tlvs[7] {
        Tlv::ManagementAddress(m) => assert_eq!(m.value, IpAddr::V4([192, 168, 1, 1])),
        other => panic!("unexpected {:?}", other),
    }
    match &pdu.tlvs[8] {
        Tlv::OrganizationSpecific(o) => assert_eq!(o.len, 4),
        other => panic!("unexpected {:?}", other),
    }
    match &pdu.tlvs[9] {
        Tlv::EndOfPdu(e) => {
            assert_eq!(e.len, 0);
            assert_eq!(e.tlv_type, TlvType::EndOfLLDPDU);
        }
        other => panic!("unexpected {:?}", other),
    }
}

fn mandatory() -> Vec<u8> {
    let mut p = Vec::new();
    p.extend(tlv(1, &[7, b's', b'w']));
    p.extend(tlv(2, &[5, b'e', b'1']));
    p.extend(tlv(3, &[0x00, 0x78]));
    p
}

#[test]
fn from_bytes_reports_overlong_tlv() {
    let mut p = mandatory();
    p.extend(tlv(5, b"switch1"));
    p.extend_from_slice(&[3 << 1, 10, 0x00]);
    assert_eq!(Lldpdu::from_bytes(&p).unwrap_err(), ParserError::WrongLength);
}

#[test]
fn from_bytes_ignores_one_trailing_byte() {
    let mut p = mandatory();
    p.push(0xff);
    let pdu = Lldpdu::from_bytes(&p).unwrap();
    assert_eq!(pdu.tlvs.len(), 3);
}

#[test]
fn length_high_bit_in_first_byte_counts_256() {
    let mut p = vec![0x02, 0x03, 0x07, 0x73, 0x77, 0x04, 0x03, 0x05, 0x65, 0x31, 0x06, 0x02, 0x00, 0x78];
    p.extend_from_slice(&[0x0b, 0x00]);
    p.extend(std::iter::repeat(0x61u8).take(256));
    p.extend_from_slice(&[0x00, 0x00]);
    let pdu = Lldpdu::from_bytes(&p).unwrap();
    assert_eq!(pdu.tlvs.len(), 5);
    match &pdu.tlvs[3] {
        Tlv::SystemName(s) => {
            assert_eq!(s.len, 256);
            assert_eq!(s.value, "a".repeat(256));
        }
        other => panic!("unexpected {:?}", other),
    }
    assert!(matches!(pdu.tlvs[4], Tlv::EndOfPdu(_)));
    let mut r = mandatory();
    r.extend_from_slice(&[(9 << 1) | 1, 0xff]);
    r.extend(std::iter::repeat(7u8).take(511));
    match &Lldpdu::from_bytes(&r).unwrap().tlvs[3] {
        Tlv::Reserved(x) => {
            assert_eq!(x.len, 511);
            assert_eq!(x.tlv_type, TlvType::Reserved(9));
        }
        other => panic!("unexpected {:?}", other),
    }
}

#[test]
fn from_bytes_checks_the_tlv_sequence() {
    assert_eq!(Lldpdu::from_bytes(&[0x06, 0x02, 0x00, 0x78]).unwrap_err(), ParserError::WrongSequence);
    assert_eq!(Lldpdu::from_bytes(&[]).unwrap_err(), ParserError::WrongSequence);
    let mut swapped = tlv(2, &[5, b'e', b'1']);
    swapped.extend(tlv(1, &[7, b's', b'w']));
    swapped.extend(tlv(3, &[0x00, 0x78]));
    assert_eq!(Lldpdu::from_bytes(&swapped).unwrap_err(), ParserError::WrongSequence);
    let mut two = tlv(1, &[7, b's', b'w']);
    two.extend(tlv(2, &[5, b'e', b'1']));
    assert_eq!(Lldpdu::from_bytes(&two).unwrap_err(), ParserError::WrongSequence);
    assert_eq!(Lldpdu::parser(&frame(&[0x06, 0x02, 0x00, 0x78])).unwrap_err(), ParserError::WrongSequence);
}

#[test]
fn from_bytes_reads_values_from_the_bytes_after_the_header() {
    // a Chassis ID TLV with no value, alone: its kind reads past the end
    assert_eq!(Lldpdu::from_bytes(&tlv(1, &[])).unwrap_err(), ParserError::WrongLength);
    // a MAC chassis id whose six bytes run past the end of the payload
    assert_eq!(Lldpdu::from_bytes(&tlv(1, &[4, 1, 2])).unwrap_err(), ParserError::WrongLength);
    // a TTL TLV of length 0 reads its value from the bytes after its header
    let mut p = tlv(1, &[7, b's', b'w']);
    p.extend(tlv(2, &[5, b'e', b'1']));
    p.extend_from_slice(&[0x06, 0x00, 0x00, 0x00]);
    let pdu = Lldpdu::from_bytes(&p).unwrap();
    assert_eq!(pdu.tlvs.len(), 4);
    match &pdu.tlvs[2] {
        Tlv::Ttl(t) => assert_eq!(t.value, 0),
        other => panic!("unexpected {:?}", other),
    }
    assert!(matches!(pdu.tlvs[3], Tlv::EndOfPdu(_)));
    // a TTL TLV of length 0 at the very end has nothing to read
    let mut q = tlv(1, &[7, b's', b'w']);
    q.extend(tlv(2, &[5, b'e', b'1']));
    q.extend_from_slice(&[0x06, 0x00]);
    assert_eq!(Lldpdu::from_bytes(&q).unwrap_err(), ParserError::WrongLength);
}

#[test]
fn tlv_type_codes_round_trip() {
    for v in 0..=255u8 {
        assert_eq!(TlvType::from(v).code(), v);
    }
    assert_eq!(TlvType::from(7), TlvType::SystemCapabilities);
    assert_eq!(TlvType::from(127), TlvType::OrganizationSpecific);
    assert_eq!(TlvType::from(9), TlvType::Reserved(9));
    for v in 0..=255u8 {
        assert_eq!(chassis_id::SubType::from(v).code(), v);
        assert_eq!(port_id::SubType::from(v).code(), v);
    }
}

#[test]
fn chassis_and_port_ids_as_addresses_and_text() {
    let c = chassis_id::ChassisId::parser(6, &[5, 1, 10, 0, 0, 1]);
    match c.value {
        chassis_id::Value::Ip(ip) => assert_eq!(ip, IpAddr::V4([10, 0, 0, 1])),
        other => panic!("unexpected {:?}", other),
    }
    let mut v6 = vec![4, 2];
    v6.extend_from_slice(&[0x20, 0x01, 0x0d, 0xb8, 0, 0, 0, 0, 0, 0, 0, 0, 0, 0, 0, 1]);
    let p = port_id::PortId::parser(18, &v6);
    match p.value {
        port_id::Value::Ip(IpAddr::V6(a)) => assert_eq!(a[15], 1),
        other => panic!("unexpected {:?}", other),
    }
    let c = chassis_id::ChassisId::parser(5, b"\x07sw01extra");
    match c.value {
        chassis_id::Value::Str(s) => assert_eq!(s, "sw01"),
        other => panic!("unexpected {:?}", other),
    }
    let p = port_id::PortId::parser(4, &[5, b'g', 0xff, b'x']);
    match p.value {
        port_id::Value::Str(s) => assert_eq!(s, "g\u{fffd}x"),
        other => panic!("unexpected {:?}", other),
    }
}

#[test]
fn value_fits_its_kind() {
    assert!(!tlv_value_fits(3, 2, &[0x01]));
    assert!(tlv_value_fits(3, 2, &[0x01, 0x02]));
}
