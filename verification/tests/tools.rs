use netkit::ccrust::{add, Point};
use netkit::csvmerge::{dedup_cves, merge_records, Cve, Record};
use netkit::echoserver::server_address;
use netkit::forwarder::{keep_reading, log_archive_pattern, log_file_path, roll_size_bytes, Response};
use netkit::funcprobe::{
    code_info, comm_name, event_header, event_plan, handle_event, stack_event, EventOutcome, format_frame, format_unknown_frame, get_symbol_address,
    stack_lines, CodeLocation, InlinedFrame, SymbolError, Symbolized,
};
use netkit::ip::IpAddr;
use netkit::p2p::{parse_legacy_multiaddr, parse_peer_addr, peer_addr_parts, sanitize_legacy_multiaddr, strip_peer_id};
use netkit::portmirror::{flow_key, hash_type_flags, ip_to_bytes};

#[test]
fn it_works() {
    let result = add(Point { x: 2, y: 2 }, Point { x: 2, y: 2 });
    assert_eq!(result, Point { x: 4, y: 4 });
}

fn row(name: &str, cves: &str) -> Record {
    Record {
        cves: cves.to_string(),
        name: name.to_string(),
        severity: "high".to_string(),
        package_name: "openssl".to_string(),
        package_version: "1.1".to_string(),
        fixed_version: "1.2".to_string(),
        published_timestamp: "2024".to_string(),
        description: "bad".to_string(),
        ..Default::default()
    }
}

#[test]
fn merge_tags_rows_with_the_image() {
    let rows = vec![
        Ok(row("", "registry/app:1|sha256:abc")),
        Ok(row("name", "cves")),
        Ok(row("CVE-1", "")),
        Ok(row("CVE-2", "")),
    ];
    let mut cves = Vec::new();
    assert_eq!(merge_records(rows, &mut cves), Ok(()));
    assert_eq!(cves.len(), 2);
    assert_eq!(cves[0].name, "CVE-1");
    assert_eq!(cves[1].name, "CVE-2");
    assert_eq!(cves[0].image, "registry/app:1");
    assert_eq!(cves[0].package, "openssl");
    assert!(!cves[0].fixed);
    assert_eq!(cves[0].wontfix_reasion, "");
}

#[test]
fn merge_errors() {
    let mut cves = Vec::new();
    assert_eq!(merge_records(vec![], &mut cves), Err("failed to parse raw".to_string()));
    assert_eq!(merge_records(vec![Err("bad".to_string())], &mut cves), Err("bad".to_string()));
    let rows = vec![
        Ok(row("", "img")),
        Err("header".to_string()),
        Ok(row("CVE-1", "")),
        Err("broken".to_string()),
        Ok(row("CVE-3", "")),
    ];
    assert_eq!(merge_records(rows, &mut cves), Err("broken".to_string()));
    assert_eq!(cves.len(), 1);
    assert_eq!(cves[0].image, "img");
}

#[test]
fn dedup_drops_consecutive_repeats() {
    let mk = |n: &str| {
        let mut c = Cve::from(row(n, ""));
        c.image = "i".to_string();
        c
    };
    let mut cves = vec![mk("a"), mk("a"), mk("b"), mk("a"), mk("a")];
    dedup_cves(&mut cves);
    assert_eq!(cves.iter().map(|c| c.name.clone()).collect::<Vec<_>>(), vec!["a", "b", "a"]);
}

#[test]
fn forwarder_responses_and_paths() {
    let r = Response::from_output(b"test\n", b"", Some(0));
    assert_eq!(r.output, "test\n");
    assert_eq!(r.error, "");
    assert_eq!(r.code, Some(0));
    let r = Response::from_output(&[0x66, 0xff], b"err", None);
    assert_eq!(r.output, "f\u{fffd}");
    assert_eq!(r.error, "err");
    let r = Response::from_failure("no bash".to_string());
    assert_eq!(r.error, "no bash");
    assert_eq!(r.code, None);
    assert!(keep_reading(4096));
    assert!(keep_reading(8192));
    assert!(!keep_reading(0));
    assert!(!keep_reading(100));
    assert_eq!(log_archive_pattern("/var/log/forwarder/"), "/var/log/forwarder/forwarder.{}.gz");
    assert_eq!(log_file_path("/tmp/x"), "/tmp/x/forwarder.log");
    assert_eq!(roll_size_bytes(50), 52_428_800);
}

#[test]
fn multiaddr_texts() {
    assert_eq!(
        sanitize_legacy_multiaddr("/ip4/1.2.3.4/tcp/4001/ipfs/QmPeer"),
        "/ip4/1.2.3.4/tcp/4001/p2p/QmPeer"
    );
    assert_eq!(sanitize_legacy_multiaddr("ipfs"), "p2p");
    assert_eq!(sanitize_legacy_multiaddr("/ipfsx/"), "/ipfsx/");
    let (addr, peer) = peer_addr_parts("/ip4/10.0.0.1/tcp/4444/12D3Koo").unwrap();
    assert_eq!(addr, "/ip4/10.0.0.1/tcp/4444/12D3Koo");
    assert_eq!(peer, "12D3Koo");
    assert_eq!(peer_addr_parts("/ip4/10.0.0.1/"), Some(("/ip4/10.0.0.1/".to_string(), String::new())));
    assert_eq!(peer_addr_parts("12D3Koo"), None);
}

fn address_of(parts: &[(bool, Vec<u8>)]) -> libp2p::Multiaddr {
    let bytes: Vec<u8> = parts.iter().flat_map(|p| p.1.clone()).collect();
    libp2p::Multiaddr::try_from(bytes).unwrap()
}

const PEER: &str = "12D3KooWD3eckifWpRn9wQpMG9R9hX3sD158z7EqHWmweQAJU5SA";

#[test]
fn legacy_addresses_lose_their_peer_id() {
    let parts = parse_legacy_multiaddr(&format!("/ip4/1.2.3.4/tcp/4001/ipfs/{PEER}")).unwrap();
    assert_eq!(parts.len(), 2);
    assert!(parts.iter().all(|p| !p.0));
    assert_eq!(address_of(&parts).to_string(), "/ip4/1.2.3.4/tcp/4001");
    let kept = parse_legacy_multiaddr("/ip4/1.2.3.4/tcp/4001").unwrap();
    assert_eq!(address_of(&kept).to_string(), "/ip4/1.2.3.4/tcp/4001");
    assert_eq!(parse_legacy_multiaddr("ip4/1.2.3.4"), Err("invalid multiaddr".to_string()));
    assert!(parse_legacy_multiaddr("/ip4/1.2.3.4/bogus").is_err());
    assert_eq!(parse_legacy_multiaddr(""), Ok(vec![]));
    let mut only_peer = vec![(false, vec![1u8]), (true, vec![2u8])];
    strip_peer_id(&mut only_peer);
    assert_eq!(only_peer, vec![(false, vec![1u8])]);
    strip_peer_id(&mut only_peer);
    assert_eq!(only_peer, vec![(false, vec![1u8])]);
}

#[test]
fn peer_addresses_split_into_address_and_peer() {
    let text = format!("/ip4/10.0.0.1/tcp/4444/p2p/{PEER}");
    let (parts, id) = parse_peer_addr(&text).unwrap();
    assert_eq!(address_of(&parts).to_string(), text);
    assert!(parts.last().unwrap().0);
    assert_eq!(id, PEER.parse::<libp2p::PeerId>().unwrap().to_bytes());
    assert_eq!(parse_peer_addr("10.0.0.1"), Err("invalid multiaddr".to_string()));
    assert!(parse_peer_addr("/ip4/10.0.0.1/tcp/4444/p2p/notapeer").is_err());
    assert!(parse_peer_addr("/ip4/10.0.0.1/").is_err());
}

#[test]
fn flow_keys_and_hash_flags() {
    let k = flow_key(None, None, None, None, None);
    assert_eq!(k.saddr, 0);
    assert_eq!(k.ip_version, 4);
    assert_eq!(hash_type_flags(&k), 0);
    let k = flow_key(Some(IpAddr::V4([10, 0, 0, 1])), None, Some(80), None, Some(6));
    assert_eq!(k.saddr, u32::from_ne_bytes([10, 0, 0, 1]) as u128);
    assert_eq!(k.sport, 80u16.to_be());
    assert_eq!(k.proto, 6);
    assert_eq!(hash_type_flags(&k), 0x01 | 0x04 | 0x08);
    let v6 = IpAddr::V6([0xfe, 0x80, 0, 0, 0, 0, 0, 0, 0, 0, 0, 0, 0, 0, 0, 1]);
    let k = flow_key(Some(v6), Some(v6), None, Some(443), None);
    assert_eq!(k.ip_version, 6);
    assert_eq!(hash_type_flags(&k), 0x01 | 0x02 | 0x10);
    assert_ne!(ip_to_bytes(v6), 0);
    let v4 = ip_to_bytes(IpAddr::V4([10, 0, 0, 1]));
    assert!(v4 == 0x0100_000a || v4 == 0x0a00_0001);
    assert!(k.dport == 443 || k.dport == 0xbb01);
    let octets = [0xfe, 0x80, 0, 0, 0, 0, 0, 0, 0, 0, 0, 0, 0, 0, 0, 1];
    let w = ip_to_bytes(v6);
    assert!(w == u128::from_le_bytes(octets) || w == u128::from_be_bytes(octets));
    assert_eq!(ip_to_bytes(IpAddr::V6([0; 16])), 0);
}

fn event_bytes(pid: u32, cpu: u32, comm: &[u8; 16], ksize: i32, usize_: i32) -> Vec<u8> {
    let mut d = Vec::new();
    d.extend_from_slice(&pid.to_ne_bytes());
    d.extend_from_slice(&cpu.to_ne_bytes());
    d.extend_from_slice(comm);
    d.extend_from_slice(&ksize.to_ne_bytes());
    d.extend_from_slice(&usize_.to_ne_bytes());
    for i in 0..128u64 {
        d.extend_from_slice(&(0xffff_0000 + i).to_ne_bytes());
    }
    for i in 0..128u64 {
        d.extend_from_slice(&(0x4000 + i).to_ne_bytes());
    }
    d
}

#[test]
fn stack_events_are_read_from_their_bytes() {
    let comm = *b"bash\0\0\0\0\0\0\0\0\0\0\0\0";
    let d = event_bytes(42, 3, &comm, 16, 24);
    assert_eq!(d.len(), 2080);
    let e = stack_event(&d).unwrap();
    assert_eq!((e.pid, e.cpu_id, e.comm, e.kstack_size, e.ustack_size), (42, 3, comm, 16, 24));
    assert_eq!(e.kstack[5], 0xffff_0005);
    assert_eq!(e.ustack[127], 0x4000 + 127);
    assert!(stack_event(&d[..2079]).is_none());
    assert!(stack_event(&[]).is_none());

    match handle_event(&d) {
        EventOutcome::Show(e, k, u) => {
            assert_eq!((k, u), (Some(2), Some(3)));
            assert_eq!(e.pid, 42);
        }
        _ => panic!("expected the event to be shown"),
    }
    assert_eq!(handle_event(&d).status(), 0);
    let only_user = event_bytes(7, 0, &comm, 0, 8);
    assert!(matches!(handle_event(&only_user), EventOutcome::Show(_, None, Some(1))));
    let empty = event_bytes(7, 0, &comm, 0, -8);
    assert!(matches!(handle_event(&empty), EventOutcome::Empty(_)));
    assert_eq!(handle_event(&empty).status(), 1);
    let oversized = event_bytes(7, 0, &comm, 2048, 0);
    assert!(matches!(handle_event(&oversized), EventOutcome::Oversized(_)));
    assert!(matches!(handle_event(&d[..100]), EventOutcome::WrongSize));
    assert_eq!(handle_event(&d[..100]).status(), 1);
}

#[test]
fn stack_event_handling() {
    assert_eq!(event_plan(0, -1), None);
    assert_eq!(event_plan(64, 0), Some((Some(8), None)));
    assert_eq!(event_plan(0, 1024), Some((None, Some(128))));
    assert_eq!(comm_name(b"bash\0\0\0\0\0\0\0\0\0\0\0\0"), "bash\0\0\0\0\0\0\0\0\0\0\0\0");
    assert_eq!(comm_name(&[0xff, 0x00]), "<unknown>");
}

#[test]
fn frame_lines() {
    assert_eq!(code_info("src/main.rs", Some(12), Some(5)), " src/main.rs:12:5");
    assert_eq!(code_info("a.c", Some(3), None), " a.c:3");
    assert_eq!(code_info("a.c", None, Some(3)), " a.c");
    assert_eq!(
        format_frame("main", Some((0x1234, 0x1000, 0x34)), Some(" a.c:3")),
        format!("{:#016x}: main @ {:#x}+{:#x} a.c:3", 0x1234u64, 0x1000u64, 0x34u64)
    );
    assert_eq!(format_frame("main", Some((0x1234, 0x1000, 0x34)), None), "0x00000000001234: main @ 0x1000+0x34");
    assert_eq!(
        format_frame("inner", None, Some(" a.c:3")),
        format!("{:16}  inner @ a.c:3 [inlined]", " ")
    );
    assert_eq!(format_frame("inner", None, None), format!("{:16}  inner [inlined]", " "));
    assert_eq!(format_unknown_frame(0xdead), "0x0000000000dead: <no-symbol>");
    assert_eq!(format_unknown_frame(u64::MAX), "0xffffffffffffffff: <no-symbol>");
}

#[test]
fn stack_lines_pair_addresses_with_symbols() {
    let syms = vec![
        Symbolized::Sym {
            name: "do_sys_open".to_string(),
            addr: 0xffff_8000,
            offset: 0x24,
            code: Some(CodeLocation { path: "fs/open.c".to_string(), line: Some(1337), column: None }),
            inlined: vec![
                InlinedFrame { name: "getname".to_string(), code: None },
                InlinedFrame {
                    name: "build_open_flags".to_string(),
                    code: Some(CodeLocation { path: "fs/open.c".to_string(), line: Some(12), column: Some(4) }),
                },
            ],
        },
        Symbolized::Unknown,
    ];
    let lines = stack_lines(&[0xffff_8024, 0x42, 0x99], &syms);
    assert_eq!(
        lines,
        vec![
            "0x000000ffff8024: do_sys_open @ 0xffff8000+0x24 fs/open.c:1337".to_string(),
            format!("{:16}  getname [inlined]", " "),
            format!("{:16}  build_open_flags @ fs/open.c:12:4 [inlined]", " "),
            "0x00000000000042: <no-symbol>".to_string(),
        ]
    );
    assert!(stack_lines(&[], &syms).is_empty());
    assert_eq!(event_header("bash", 42, 3), "COMM: bash (pid=42) @ CPU 3");
}

#[test]
fn symbol_lookup_rejects_non_objects() {
    match get_symbol_address(b"definitely not an object file", "main") {
        Err(SymbolError::Parse(msg)) => assert!(!msg.is_empty()),
        other => panic!("unexpected {:?}", other),
    }
}

#[test]
fn listen_addresses() {
    assert_eq!(server_address(None, None), "0.0.0.0:7788");
    assert_eq!(server_address(Some("127.0.0.1"), Some(9000)), "127.0.0.1:9000");
}
