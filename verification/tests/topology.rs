use netkit::topology::packet::{builder, frame_len_of, is_readable, parse, receive, Peer};
use netkit::topology::{
    is_virtual_device, redraw_step, RedrawStep, down_interfaces, find_interface, hostname_from_nodename, interface_from_sysfs, probe_ranges, select_interfaces,
    show_vlan, vlan_range, Interface, MacAddress, Node, OperState, ParseError, Topo,
};

fn iface(index: u32, name: &str, state: OperState) -> Interface {
    Interface {
        index,
        name: name.to_string(),
        mac: MacAddress::from([0x52, 0x54, 0x00, 0x12, 0x34, index as u8]),
        state,
    }
}

#[test]
fn mac_address_text_round_trip() {
    let m = MacAddress::from_text("00:1a:2B:3c:4D:ff").unwrap();
    assert_eq!(m.octets(), [0x00, 0x1a, 0x2b, 0x3c, 0x4d, 0xff]);
    assert_eq!(m.to_string(), "00:1a:2b:3c:4d:ff");
    let back = MacAddress::from_text(&m.to_string()).unwrap();
    assert_eq!(back, m);
    let trimmed = MacAddress::from_text(" 0a:0b:0c:0d:0e:0f\n").unwrap();
    assert_eq!(trimmed.octets(), [10, 11, 12, 13, 14, 15]);
    assert_eq!(MacAddress::from_text("00:11:22:33:44"), Err(ParseError));
    assert!(MacAddress::is_readable("00:11:22:33:44"));
    assert!(!MacAddress::is_readable("zz:11:22:33:44:55"));
    assert!(!MacAddress::is_readable("100:11:22:33:44:55"));
    assert!(MacAddress::is_readable("+0a:11:22:33:44:55"));
    assert!(MacAddress::from([0xff; 6]).is_broadcast());
    assert!(!m.is_broadcast());
}

#[test]
fn oper_state_reads_up_and_down() {
    assert_eq!("up\n".parse::<OperState>(), Ok(OperState::Up));
    assert_eq!(OperState::from_text(" DOWN "), Ok(OperState::Down));
    assert_eq!(OperState::from_text("Up"), Ok(OperState::Up));
    assert_eq!(OperState::from_text("unknown"), Err(ParseError));
    assert_eq!(OperState::from_text("u p"), Err(ParseError));
    assert_eq!(OperState::default(), OperState::Up);
}

#[test]
fn show_vlan_compacts_runs() {
    assert_eq!(show_vlan(&vec![]), "");
    assert_eq!(show_vlan(&vec![5]), "5");
    assert_eq!(show_vlan(&vec![1, 2, 3, 5, 7, 8]), "1-3,5,7-8");
    assert_eq!(show_vlan(&vec![3, 1, 2]), "3,1-2");
    assert_eq!(show_vlan(&vec![4094, 65535]), "4094,65535");
}

#[test]
fn vlan_range_reads_and_rejects() {
    assert_eq!(vlan_range("2-4"), Ok((2, 4)));
    assert_eq!(vlan_range("+3-5"), Ok((3, 5)));
    assert_eq!(vlan_range("7-7"), Ok((7, 7)));
    assert_eq!(vlan_range("4"), Err("Vlan range format error. Should be like `2-4`".to_string()));
    assert_eq!(vlan_range("a-4"), Err("`a` is not a number".to_string()));
    assert_eq!(vlan_range("1-65536"), Err("`65536` is not a number".to_string()));
    assert_eq!(vlan_range("4-2"), Err("2 is smaller than 4".to_string()));
    assert_eq!(vlan_range("1-2-3"), Err("`2-3` is not a number".to_string()));
}

fn expand(text: &str) -> Vec<u16> {
    let mut out = Vec::new();
    for item in text.split(',').filter(|i| !i.is_empty()) {
        match vlan_range(item) {
            Ok((a, b)) => out.extend(a..=b),
            Err(_) => out.push(item.parse::<u16>().unwrap()),
        }
    }
    out
}

#[test]
fn vlan_text_expands_back_with_maximal_runs() {
    for v in [vec![], vec![7], vec![1, 2, 3, 5, 7, 8], vec![3, 1, 2], vec![10, 11, 13, 14, 15, 4094]] {
        assert_eq!(expand(&show_vlan(&v)), v);
    }
    // the runs cannot be merged: no item ends one below where the next starts
    let items: Vec<String> = show_vlan(&vec![1, 2, 4, 5, 9]).split(',').map(|s| s.to_string()).collect();
    assert_eq!(items, vec!["1-2", "4-5", "9"]);
}

#[test]
fn shown_run_reads_back_as_range() {
    let shown = show_vlan(&vec![2, 3, 4]);
    assert_eq!(shown, "2-4");
    assert_eq!(vlan_range(&shown), Ok((2, 4)));
    let shown = show_vlan(&vec![4094, 4095]);
    assert_eq!(vlan_range(&shown), Ok((4094, 4095)));
}

#[test]
fn topo_records_links_and_vlans() {
    let nics = vec![iface(2, "eth0", OperState::Up), iface(3, "eth1", OperState::Up)];
    let host = "alpha".to_string();
    let mut topo = Topo::new();
    let peer = |vlan: u16| Peer {
        host: "beta".to_string(),
        nic: "ens1".to_string(),
        mac: MacAddress::from([0, 1, 2, 3, 4, 5]),
        vlan,
    };
    assert!(!topo.update(&host, &nics, 9, peer(1)));
    assert_eq!(topo.connection.len(), 0);
    assert!(topo.update(&host, &nics, 3, peer(12)));
    assert!(topo.update(&host, &nics, 3, peer(10)));
    assert!(topo.update(&host, &nics, 3, peer(11)));
    assert!(topo.update(&host, &nics, 3, peer(10)));
    assert!(topo.update(&host, &nics, 2, peer(0)));
    assert_eq!(topo.connection.len(), 2);
    assert_eq!(topo.connection[0].1, vec![10, 11, 12]);
    assert_eq!(topo.connection[1].1, vec![0]);
    assert_eq!(topo.connection[0].0 .0.nic.name, "eth1");
    assert_eq!(topo.connection[0].0 .1.nic.index, 0);
    assert_eq!(
        topo.to_string(),
        "alpha eth1 52:54:00:12:34:03 <-> beta ens1 00:01:02:03:04:05 VLAN: 10-12\
         alpha eth0 52:54:00:12:34:02 <-> beta ens1 00:01:02:03:04:05 VLAN: 0"
    );
}

#[test]
fn node_text_and_equality() {
    let a = Node { host: "h".to_string(), nic: iface(1, "lo0", OperState::Down) };
    let b = Node { host: "h".to_string(), nic: iface(1, "lo0", OperState::Down) };
    assert!(a.same_as(&b));
    assert_eq!(a.to_string(), "h lo0 52:54:00:12:34:01");
    let c = Node { host: "h".to_string(), nic: iface(1, "lo0", OperState::Up) };
    assert!(!a.same_as(&c));
}

#[test]
fn frame_round_trip_through_builder_and_parse() {
    let nic = iface(4, "eth2", OperState::Up);
    let mut buf = [0u8; 256];
    let broadcast = MacAddress::from([0xff; 6]);
    let len = builder(&mut buf, &nic, &broadcast, 100, "gamma");
    assert_eq!(len, 18 + 28 + 1 + 4 + 1 + 5 + 2);
    assert_eq!(&buf[12..14], &[0x81, 0x00]);
    assert_eq!(&buf[14..16], &[0x00, 100]);
    assert_eq!(&buf[16..18], &[0x80, 0x35]);
    assert_eq!(&buf[18..26], &[0, 1, 8, 0, 6, 4, 0, 3]);
    let (peer, request) = parse(&buf).unwrap();
    assert!(request);
    assert_eq!(peer.host, "gamma");
    assert_eq!(peer.nic, "eth2");
    assert_eq!(peer.vlan, 100);
    assert_eq!(peer.mac, nic.mac);

    let mut buf = [0u8; 128];
    let unicast = MacAddress::from([2, 0, 0, 0, 0, 1]);
    let len = builder(&mut buf, &nic, &unicast, 0, "delta");
    assert_eq!(len, 14 + 28 + 1 + 4 + 1 + 5 + 2);
    assert_eq!(&buf[0..6], &[2, 0, 0, 0, 0, 1]);
    assert_eq!(&buf[12..14], &[0x80, 0x35]);
    let (peer, request) = parse(&buf).unwrap();
    assert!(!request);
    assert_eq!(peer.vlan, 0);
    assert_eq!(peer.host, "delta");
}

#[test]
fn parse_ignores_other_frames() {
    let mut buf = [0u8; 64];
    buf[12] = 0x08;
    buf[13] = 0x06;
    assert!(parse(&buf).is_none());
}

#[test]
fn hostname_drops_trailing_nuls() {
    let mut field = [0u8; 65];
    field[..6].copy_from_slice(b"server");
    assert_eq!(hostname_from_nodename(&field), "server");
    assert_eq!(hostname_from_nodename(&[0u8; 4]), "");
}

#[test]
fn interfaces_from_sysfs_and_selection() {
    let i = interface_from_sysfs("eth0".to_string(), "2\n", "52:54:00:12:34:56\n", "up\n").unwrap();
    assert_eq!(i.index, 2);
    assert_eq!(i.mac.octets(), [0x52, 0x54, 0x00, 0x12, 0x34, 0x56]);
    assert_eq!(i.state, OperState::Up);
    assert!(interface_from_sysfs("x".to_string(), "two", "52:54:00:12:34:56", "up").is_none());
    assert!(interface_from_sysfs("x".to_string(), "2", "52:54:00", "up").is_none());
    assert!(interface_from_sysfs("x".to_string(), "2", "52:54:00:12:34:56", "dormant").is_none());

    let nics = vec![
        iface(1, "eth0", OperState::Up),
        iface(2, "eth1", OperState::Down),
        iface(3, "eth2", OperState::Up),
    ];
    assert_eq!(find_interface(&nics, 3), Some(2));
    assert_eq!(find_interface(&nics, 7), None);
    assert_eq!(down_interfaces(&nics, &None), vec!["eth1".to_string()]);
    assert_eq!(down_interfaces(&nics, &Some(vec!["eth2".to_string()])), Vec::<String>::new());
    let chosen = select_interfaces(nics.clone(), &None);
    assert_eq!(chosen.iter().map(|n| n.index).collect::<Vec<_>>(), vec![1, 3]);
    let named = select_interfaces(nics, &Some(vec!["eth1".to_string(), "eth2".to_string()]));
    assert_eq!(named.iter().map(|n| n.index).collect::<Vec<_>>(), vec![3]);
    assert_eq!(probe_ranges(vec![]), vec![(1, 4094), (0, 0)]);
    assert_eq!(probe_ranges(vec![(5, 6)]), vec![(5, 6), (0, 0)]);
}

#[test]
fn frame_bounds_are_checked() {
    assert_eq!(frame_len_of(0, 4, 5), 14 + 28 + 1 + 4 + 1 + 5 + 2);
    assert_eq!(frame_len_of(7, 0, 0), 18 + 28 + 4);
    assert!(!is_readable(&[0u8; 10]));
    let mut short = [0u8; 16];
    short[12] = 0x81;
    short[13] = 0x00;
    assert!(!is_readable(&short));
    let mut rarp = [0u8; 43];
    rarp[12] = 0x80;
    rarp[13] = 0x35;
    assert!(!is_readable(&rarp));
    let nic = iface(4, "eth2", OperState::Up);
    let mut buf = [0u8; 64];
    let len = builder(&mut buf, &nic, &MacAddress::from([0xff; 6]), 0, "h");
    assert!(is_readable(&buf[..len]));
    assert!(!is_readable(&buf[..len - 1]));
}

#[test]
fn virtual_devices_are_told_by_path_components() {
    assert!(is_virtual_device("../../devices/virtual/net/lo"));
    assert!(is_virtual_device("../../devices/virtual"));
    assert!(is_virtual_device("../..//devices/./virtual/net/veth0"));
    assert!(!is_virtual_device("../../devices/pci0000:00/0000:00:03.0/net/eth0"));
    assert!(!is_virtual_device("../../devices/virtualx/net/a"));
    assert!(!is_virtual_device("/../../devices/virtual/net/lo"));
    assert!(!is_virtual_device("./../../devices/virtual/net/lo"));
    assert!(!is_virtual_device(""));
}

#[test]
fn display_is_drawn_once_reports_stop() {
    assert_eq!(redraw_step(3, false), RedrawStep::Wait);
    assert_eq!(redraw_step(0, false), RedrawStep::Pause);
    assert_eq!(redraw_step(0, true), RedrawStep::Draw);
    assert_eq!(redraw_step(1, true), RedrawStep::Wait);
}

#[test]
fn received_requests_are_answered() {
    let nic = iface(4, "eth2", OperState::Up);
    let mut buf = [0u8; 256];
    builder(&mut buf, &nic, &MacAddress::from([0xff; 6]), 0, "gamma");
    let (report, answer) = receive(&buf).unwrap();
    assert_eq!(report.host, "gamma");
    let a = answer.unwrap();
    assert_eq!((a.host.as_str(), a.nic.as_str(), a.vlan), ("gamma", "eth2", 0));
    let mut reply = [0u8; 256];
    builder(&mut reply, &nic, &MacAddress::from([2, 0, 0, 0, 0, 1]), 0, "gamma");
    let (report, answer) = receive(&reply).unwrap();
    assert_eq!(report.nic, "eth2");
    assert!(answer.is_none());
}
