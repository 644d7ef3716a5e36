//! The frames of the discovery protocol: a RARP frame, VLAN-tagged or not,
//! whose payload carries the sender's interface name, host name and VLAN.
use vstd::prelude::*;
use vstd::utf8::{encode_utf8, decode_utf8, valid_utf8};
use crate::lldp::tlv::ttl::{be16, read_be16};
use crate::text::{utf8_lossy, lossy_string};
use crate::topology::{Interface, MacAddress};

verus! {

/// A peer that answered or asked, as its frame describes it.
#[derive(Debug)]
pub struct Peer {
    pub host: String,
    pub nic: String,
    pub mac: MacAddress,
    pub vlan: u16,
}

impl Clone for Peer {
    fn clone(&self) -> (r: Self)
        ensures
            r.host@ == self.host@,
            r.nic@ == self.nic@,
            r.mac == self.mac,
            r.vlan == self.vlan,
    {
        Peer { host: self.host.clone(), nic: self.nic.clone(), mac: self.mac, vlan: self.vlan }
    }
}

/// EtherType of a VLAN tag.
pub const ETHERTYPE_VLAN: u16 = 0x8100;

/// EtherType of RARP.
pub const ETHERTYPE_RARP: u16 = 0x8035;

/// Length of an Ethernet header.
pub const ETHERNET_LEN: usize = 14;

/// Length of a VLAN tag.
pub const VLAN_LEN: usize = 4;

/// Length of an ARP packet for IPv4 over Ethernet.
pub const ARP_LEN: usize = 28;

/// RARP operation of a request.
pub const RARP_REQUEST: u16 = 3;

/// RARP operation of a reply.
pub const RARP_REPLY: u16 = 4;

/// Length of the headers that precede the ARP packet: the Ethernet header,
/// and the VLAN tag when there is a VLAN.
pub open spec fn header_len_for(vlan: u16) -> int {
    if vlan != 0 {
        18
    } else {
        14
    }
}

/// Length of a frame that carries an interface name of `n` bytes and a
/// host name of `m` bytes.
pub open spec fn frame_len(vlan: u16, n: int, m: int) -> int {
    header_len_for(vlan) + 28 + 1 + n + 1 + m + 2
}

/// The bytes that the builder writes in front of the ARP packet. With a
/// VLAN, the tag keeps the top four bits of byte 14 and holds the low twelve
/// bits of the VLAN.
pub open spec fn built_headers(prior: Seq<u8>, dst: Seq<u8>, src: Seq<u8>, vlan: u16) -> Seq<u8> {
    if vlan != 0 {
        dst + src + seq![
            0x81u8,
            0x00u8,
            ((prior[14] / 16) * 16 + (vlan / 256) % 16) as u8,
            (vlan % 256) as u8,
            0x80u8,
            0x35u8,
        ]
    } else {
        dst + src + seq![0x80u8, 0x35u8]
    }
}

/// The ARP packet that the builder writes at `at`: Ethernet hardware, IPv4
/// protocol, address lengths 6 and 4, the operation, and the addresses that
/// were in the buffer.
pub open spec fn built_arp(prior: Seq<u8>, at: int, op: u16) -> Seq<u8> {
    seq![0u8, 1u8, 8u8, 0u8, 6u8, 4u8, (op / 256) as u8, (op % 256) as u8] + prior.subrange(
        at + 8,
        at + 28,
    )
}

/// The payload that the builder writes: the length (modulo 256) and bytes
/// of the interface name, those of the host name, and the VLAN in
/// big-endian order.
pub open spec fn built_payload(name: Seq<u8>, host: Seq<u8>, vlan: u16) -> Seq<u8> {
    seq![(name.len() % 256) as u8] + name + seq![(host.len() % 256) as u8] + host + seq![
        (vlan / 256) as u8,
        (vlan % 256) as u8,
    ]
}

/// The whole buffer after building a frame into `prior`: headers, ARP
/// packet and payload, then the bytes of `prior` past the frame.
pub open spec fn built_frame(
    prior: Seq<u8>,
    dst: Seq<u8>,
    src: Seq<u8>,
    vlan: u16,
    name: Seq<u8>,
    host: Seq<u8>,
) -> Seq<u8> {
    let h = header_len_for(vlan);
    let op: u16 = if dst == seq![0xffu8, 0xffu8, 0xffu8, 0xffu8, 0xffu8, 0xffu8] {
        3
    } else {
        4
    };
    built_headers(prior, dst, src, vlan) + built_arp(prior, h, op) + built_payload(name, host, vlan)
        + prior.skip(frame_len(vlan, name.len() as int, host.len() as int))
}

/// The length of the frame that `builder` writes for a VLAN and names of
/// `name_len` and `host_len` bytes.
pub fn frame_len_of(vlan: u16, name_len: usize, host_len: usize) -> (len: u128)
    ensures
        len == frame_len(vlan, name_len as int, host_len as int),
{
    let h: u128 = if vlan != 0 { 18 } else { 14 };
    h + 28 + 1 + name_len as u128 + 1 + host_len as u128 + 2
}

/// Writes `bytes` into `buf` from `at` on.
fn put_bytes(buf: &mut [u8], at: usize, bytes: &[u8])
    requires
        at + bytes@.len() <= old(buf)@.len(),
    ensures
        final(buf)@ == old(buf)@.subrange(0, at as int) + bytes@ + old(buf)@.skip(at + bytes@.len()),
{
    let blen = buf.len();
    let mut i: usize = 0;
    while i < bytes.len()
        invariant
            blen == buf@.len(),
            at + bytes@.len() <= buf@.len(),
            buf@.len() == old(buf)@.len(),
            i <= bytes@.len(),
            buf@ == old(buf)@.subrange(0, at as int) + bytes@.take(i as int) + old(buf)@.skip(at + i),
        decreases bytes@.len() - i,
    {
        buf[at + i] = bytes[i];
        i = i + 1;
        assert(buf@ =~= old(buf)@.subrange(0, at as int) + bytes@.take(i as int) + old(buf)@.skip(at + i));
    }
    assert(bytes@.take(i as int) =~= bytes@);
}

/// Writes the big-endian bytes of `v` at `at`.
fn put_be16(buf: &mut [u8], at: usize, v: u16)
    requires
        at + 2 <= old(buf)@.len(),
    ensures
        final(buf)@ == old(buf)@.update(at as int, (v / 256) as u8).update(at + 1, (v % 256) as u8),
{
    buf[at] = (v / 256) as u8;
    buf[at + 1] = (v % 256) as u8;
}

/// Writes the Ethernet header, and the VLAN tag when `vlan` is not 0, and
/// returns their length.
fn write_headers(buf: &mut [u8], dst: &MacAddress, src: &MacAddress, vlan: u16) -> (h: usize)
    requires
        18 <= old(buf)@.len(),
    ensures
        h == header_len_for(vlan),
        final(buf)@ == built_headers(old(buf)@, dst.bytes(), src.bytes(), vlan) + old(buf)@.skip(
            h as int,
        ),
{
    let ghost old_buf = buf@;
    let d = dst.octets();
    let s = src.octets();
    put_bytes(buf, 0, d.as_slice());
    put_bytes(buf, 6, s.as_slice());
    if vlan != 0 {
        put_be16(buf, 12, ETHERTYPE_VLAN);
        let b14 = buf[14];
        buf[14] = (b14 / 16) * 16 + ((vlan / 256) % 16) as u8;
        buf[15] = (vlan % 256) as u8;
        put_be16(buf, 16, ETHERTYPE_RARP);
        assert(buf@ =~= built_headers(old_buf, dst.bytes(), src.bytes(), vlan) + old_buf.skip(18));
        ETHERNET_LEN + VLAN_LEN
    } else {
        put_be16(buf, 12, ETHERTYPE_RARP);
        assert(buf@ =~= built_headers(old_buf, dst.bytes(), src.bytes(), vlan) + old_buf.skip(14));
        ETHERNET_LEN
    }
}

/// Writes the fixed fields of the ARP packet at `at`, with operation `op`.
fn write_arp(buf: &mut [u8], at: usize, op: u16)
    requires
        at + 28 <= old(buf)@.len(),
    ensures
        final(buf)@ == old(buf)@.take(at as int) + built_arp(old(buf)@, at as int, op) + old(
            buf,
        )@.skip(at + 28),
{
    let ghost old_buf = buf@;
    let blen = buf.len();
    put_be16(buf, at, 1);
    put_be16(buf, at + 2, 0x0800);
    buf[at + 4] = 6;
    buf[at + 5] = 4;
    put_be16(buf, at + 6, op);
    assert(buf@ =~= old_buf.take(at as int) + built_arp(old_buf, at as int, op) + old_buf.skip(
        at + 28,
    ));
}

/// Writes the payload at `at`: the interface name, the host name and the
/// VLAN.
fn write_payload(buf: &mut [u8], at: usize, name: &[u8], host: &[u8], vlan: u16)
    requires
        at + 1 + name@.len() + 1 + host@.len() + 2 <= old(buf)@.len(),
    ensures
        final(buf)@ == old(buf)@.take(at as int) + built_payload(name@, host@, vlan) + old(
            buf,
        )@.skip(at + 1 + name@.len() + 1 + host@.len() + 2),
{
    let ghost old_buf = buf@;
    let n = name.len();
    let m = host.len();
    buf[at] = (n % 256) as u8;
    put_bytes(buf, at + 1, name);
    buf[at + 1 + n] = (m % 256) as u8;
    put_bytes(buf, at + 2 + n, host);
    put_be16(buf, at + 2 + n + m, vlan);
    assert(buf@ =~= old_buf.take(at as int) + built_payload(name@, host@, vlan) + old_buf.skip(
        at + 1 + name@.len() + 1 + host@.len() + 2,
    ));
}

/// Law of the frame's wire format: what the builder writes, byte by byte.
/// The destination and source addresses come first; then, with a VLAN, the
/// tag 0x8100 and the VLAN's low twelve bits, and in any case the EtherType
/// 0x8035 (RARP); the ARP header starts with hardware type 1, protocol
/// 0x0800, lengths 6 and 4 and operation 3 (to the broadcast address) or 4;
/// after the ARP packet come the interface name's length (modulo 256) and
/// bytes, the host name's length and bytes, and the VLAN, high byte first.
pub proof fn lemma_built_frame_wire(
    prior: Seq<u8>,
    dst: Seq<u8>,
    src: Seq<u8>,
    vlan: u16,
    name: Seq<u8>,
    host: Seq<u8>,
)
    requires
        dst.len() == 6,
        src.len() == 6,
        frame_len(vlan, name.len() as int, host.len() as int) <= prior.len(),
    ensures
        ({
            let f = built_frame(prior, dst, src, vlan, name, host);
            let h: int = if vlan != 0 { 18 } else { 14 };
            let o = h + 28;
            let n = name.len() as int;
            let m = host.len() as int;
            &&& f.len() == prior.len()
            &&& f.subrange(0, 6) == dst
            &&& f.subrange(6, 12) == src
            &&& vlan != 0 ==> f[12] == 0x81 && f[13] == 0x00 && f[14] % 16 == (vlan / 256) % 16
                && f[15] == vlan % 256 && f[16] == 0x80 && f[17] == 0x35
            &&& vlan == 0 ==> f[12] == 0x80 && f[13] == 0x35
            &&& f[h] == 0 && f[h + 1] == 1 && f[h + 2] == 8 && f[h + 3] == 0
            &&& f[h + 4] == 6 && f[h + 5] == 4 && f[h + 6] == 0
            &&& f[h + 7] == (if dst == seq![0xffu8, 0xffu8, 0xffu8, 0xffu8, 0xffu8, 0xffu8] { 3u8 } else { 4u8 })
            &&& f[o] == n % 256
            &&& f.subrange(o + 1, o + 1 + n) == name
            &&& f[o + 1 + n] == m % 256
            &&& f.subrange(o + 2 + n, o + 2 + n + m) == host
            &&& f[o + 2 + n + m] == vlan / 256
            &&& f[o + 3 + n + m] == vlan % 256
        }),
{
    let f = built_frame(prior, dst, src, vlan, name, host);
    let h: int = if vlan != 0 { 18 } else { 14 };
    let op: u16 = if dst == seq![0xffu8, 0xffu8, 0xffu8, 0xffu8, 0xffu8, 0xffu8] { 3 } else { 4 };
    let hd = built_headers(prior, dst, src, vlan);
    let arp = built_arp(prior, h, op);
    let pl = built_payload(name, host, vlan);
    let rest = prior.skip(frame_len(vlan, name.len() as int, host.len() as int));
    assert(hd.len() == h);
    assert(f == hd + arp + pl + rest);
    let o = h + 28;
    let n = name.len() as int;
    let m = host.len() as int;
    assert forall|i: int| 0 <= i < h implies f[i] == hd[i] by {}
    assert forall|i: int| 0 <= i < 28 implies f[h + i] == arp[i] by {}
    assert forall|i: int| 0 <= i < pl.len() implies f[o + i] == pl[i] by {}
    assert(f.subrange(0, 6) =~= dst) by {
        assert forall|i: int| 0 <= i < 6 implies f.subrange(0, 6)[i] == dst[i] by {
            assert(hd[i] == dst[i]);
        }
    }
    assert(f.subrange(6, 12) =~= src) by {
        assert forall|i: int| 0 <= i < 6 implies f.subrange(6, 12)[i] == src[i] by {
            assert(hd[6 + i] == src[i]);
        }
    }
    assert(f.subrange(o + 1, o + 1 + n) =~= name) by {
        assert forall|i: int| 0 <= i < n implies f.subrange(o + 1, o + 1 + n)[i] == name[i] by {
            assert(f[o + (1 + i)] == pl[1 + i]);
        }
    }
    assert(f.subrange(o + 2 + n, o + 2 + n + m) =~= host) by {
        assert forall|i: int| 0 <= i < m implies f.subrange(o + 2 + n, o + 2 + n + m)[i] == host[i] by {
            assert(f[o + (2 + n + i)] == pl[2 + n + i]);
        }
    }
    assert(f[o] == pl[0]);
    assert(f[o + 1 + n] == pl[1 + n]);
    assert(f[o + 2 + n + m] == pl[2 + n + m]);
    assert(f[o + 3 + n + m] == pl[3 + n + m]);
}

/// Law of reading a frame: what a readable RARP frame carries, byte by
/// byte. The ARP packet starts after 18 bytes when bytes 12 and 13 are the
/// VLAN tag 0x8100, else after 14; the interface name and the host name
/// follow it, each after its length byte; the VLAN is the big-endian value
/// of the two bytes after the host name; the sender's address is bytes 6
/// to 12; and it is a request when the ARP operation (bytes 6 and 7 of the
/// ARP packet) is 3.
pub proof fn lemma_frame_fields_wire(buf: Seq<u8>)
    requires
        frame_readable(buf),
        frame_fields(buf) is Some,
    ensures
        ({
            let h: int = if buf[12] == 0x81 && buf[13] == 0x00 { 18 } else { 14 };
            let o = h + 28;
            let n = buf[o] as int;
            let m = buf[o + 1 + n] as int;
            let f = frame_fields(buf)->0;
            &&& f.0 == buf.subrange(o + 2 + n, o + 2 + n + m)
            &&& f.1 == buf.subrange(o + 1, o + 1 + n)
            &&& f.2 == buf.subrange(6, 12)
            &&& f.3 == buf[o + 2 + n + m] * 256 + buf[o + 3 + n + m]
            &&& f.4 == (buf[h + 6] == 0 && buf[h + 7] == 3)
        }),
{
    assert(is_tagged(buf) <==> (buf[12] == 0x81 && buf[13] == 0x00));
}

/// Builds a discovery frame into `buf` and returns its length.
///
/// The frame goes from `interface` to `dst_mac`: an Ethernet header, a VLAN
/// tag when `vlan` is not 0, then a RARP packet (a request when `dst_mac`
/// is the broadcast address, a reply otherwise) followed by the interface
/// name, the host name and the VLAN. Each name is preceded by its length in
/// bytes, modulo 256.
pub fn builder(
    buf: &mut [u8],
    interface: &Interface,
    dst_mac: &MacAddress,
    vlan: u16,
    hostname: &str,
) -> (len: usize)
    requires
        frame_len(
            vlan,
            encode_utf8(interface.name@).len() as int,
            encode_utf8(hostname@).len() as int,
        ) <= old(buf)@.len(),
    ensures
        len == frame_len(
            vlan,
            encode_utf8(interface.name@).len() as int,
            encode_utf8(hostname@).len() as int,
        ),
        final(buf)@ == built_frame(
            old(buf)@,
            dst_mac.bytes(),
            interface.mac.bytes(),
            vlan,
            encode_utf8(interface.name@),
            encode_utf8(hostname@),
        ),
        final(buf)@[len - 2] == vlan / 256,
        final(buf)@[len - 1] == vlan % 256,
{
    let ghost old_buf = buf@;
    let blen = buf.len();
    let name = interface.name.as_str().as_bytes();
    let host = hostname.as_bytes();
    let h = write_headers(buf, dst_mac, &interface.mac, vlan);
    let ghost b1 = buf@;
    let op: u16 = if dst_mac.is_broadcast() {
        RARP_REQUEST
    } else {
        RARP_REPLY
    };
    write_arp(buf, h, op);
    let ghost b2 = buf@;
    let start = h + ARP_LEN;
    write_payload(buf, start, name, host, vlan);
    let len = start + 1 + name.len() + 1 + host.len() + 2;
    proof {
        let hd = built_headers(old_buf, dst_mac.bytes(), interface.mac.bytes(), vlan);
        assert(hd.len() == h);
        assert(b1.subrange(h + 8, h + 28) == old_buf.subrange(h + 8, h + 28));
        assert(built_arp(b1, h as int, op) =~= built_arp(old_buf, h as int, op));
        assert(b2 =~= hd + built_arp(old_buf, h as int, op) + old_buf.skip(start as int));
        assert(b2.take(start as int) =~= hd + built_arp(old_buf, h as int, op));
        assert(b2.skip(len as int) =~= old_buf.skip(len as int));
        assert(buf@ =~= built_frame(old_buf, dst_mac.bytes(), interface.mac.bytes(), vlan, name@, host@));
        lemma_built_frame_wire(old_buf, dst_mac.bytes(), interface.mac.bytes(), vlan, name@, host@);
    }
    len
}

/// The frame carries a VLAN tag: its EtherType is 0x8100.
pub open spec fn is_tagged(buf: Seq<u8>) -> bool {
    be16(buf[12], buf[13]) == 0x8100
}

/// Where the packet after the Ethernet header (and the VLAN tag) starts.
pub open spec fn arp_offset(buf: Seq<u8>) -> int {
    if is_tagged(buf) {
        18
    } else {
        14
    }
}

/// The EtherType of what the frame carries: past the VLAN tag if there is
/// one.
pub open spec fn inner_ethertype(buf: Seq<u8>) -> u16 {
    if is_tagged(buf) {
        be16(buf[16], buf[17])
    } else {
        be16(buf[12], buf[13])
    }
}

/// The frame holds everything that reading it touches: the Ethernet
/// header, the VLAN tag if announced, and for a RARP frame the ARP packet,
/// both length-prefixed names and the VLAN.
pub open spec fn frame_readable(buf: Seq<u8>) -> bool {
    &&& buf.len() >= 14
    &&& is_tagged(buf) ==> buf.len() >= 18
    &&& inner_ethertype(buf) == 0x8035 ==> {
        let o = arp_offset(buf) + 28;
        &&& o < buf.len()
        &&& o + 1 + buf[o] < buf.len()
        &&& o + 1 + buf[o] + 1 + buf[o + 1 + buf[o]] + 2 <= buf.len()
    }
}

/// What a frame carries: for a RARP frame, the bytes of the host name and
/// of the interface name, the source MAC address, the VLAN of the payload,
/// and whether it is a request (operation 3); nothing for another frame.
pub open spec fn frame_fields(buf: Seq<u8>) -> Option<(Seq<u8>, Seq<u8>, Seq<u8>, u16, bool)> {
    if inner_ethertype(buf) == 0x8035 {
        let a = arp_offset(buf);
        let o = a + 28;
        let n = buf[o] as int;
        let o2 = o + 1 + n;
        let m = buf[o2] as int;
        let o3 = o2 + 1 + m;
        Some(
            (
                buf.subrange(o2 + 1, o3),
                buf.subrange(o + 1, o2),
                buf.subrange(6, 12),
                be16(buf[o3], buf[o3 + 1]),
                be16(buf[a + 6], buf[a + 7]) == 3,
            ),
        )
    } else {
        None
    }
}

/// Whether reading `buf` as a discovery frame stays within it.
pub fn is_readable(buf: &[u8]) -> (ok: bool)
    ensures
        ok == frame_readable(buf@),
{
    let n = buf.len();
    if n < ETHERNET_LEN {
        return false;
    }
    let outer = read_be16(buf, 12);
    if outer == ETHERTYPE_VLAN && n < ETHERNET_LEN + VLAN_LEN {
        return false;
    }
    let (offset, inner) = if outer == ETHERTYPE_VLAN {
        (ETHERNET_LEN + VLAN_LEN, read_be16(buf, 16))
    } else {
        (ETHERNET_LEN, outer)
    };
    if inner != ETHERTYPE_RARP {
        return true;
    }
    let o = offset + ARP_LEN;
    if o >= n {
        return false;
    }
    let o2 = o + 1 + buf[o] as usize;
    if o2 >= n {
        return false;
    }
    n - o2 >= 1 + buf[o2] as usize + 2
}

/// `peer` is the peer that a readable frame describes: its host and
/// interface names decoded as text, its MAC address and its VLAN.
pub open spec fn peer_of_frame(buf: Seq<u8>, peer: Peer) -> bool {
    let f = frame_fields(buf)->0;
    &&& peer.host@ == utf8_lossy(f.0)
    &&& valid_utf8(f.0) ==> peer.host@ == decode_utf8(f.0)
    &&& peer.nic@ == utf8_lossy(f.1)
    &&& valid_utf8(f.1) ==> peer.nic@ == decode_utf8(f.1)
    &&& peer.mac.bytes() == f.2
    &&& peer.vlan == f.3
}

/// A readable frame asks for an answer: it is a request.
pub open spec fn frame_asks(buf: Seq<u8>) -> bool {
    let f = frame_fields(buf)->0;
    f.4
}

/// What a received discovery frame leads to: nothing when it is not one;
/// else the peer's report for the map, and, when the peer asked, the same
/// report to answer.
pub fn receive(buf: &[u8]) -> (r: Option<(Peer, Option<Peer>)>)
    requires
        frame_readable(buf@),
    ensures
        r is None <==> frame_fields(buf@) is None,
        r matches Some((report, answer)) ==> {
            &&& peer_of_frame(buf@, report)
            &&& answer is Some <==> frame_asks(buf@)
            &&& answer matches Some(a) ==> peer_of_frame(buf@, a)
        },
{
    match parse(buf) {
        None => None,
        Some((peer, request)) => {
            let answer = if request {
                Some(peer.clone())
            } else {
                None
            };
            Some((peer, answer))
        },
    }
}

/// Decodes a discovery frame: the peer that sent it, and whether it asks
/// for a reply. A frame that is not a RARP frame gives `None`. The names
/// are decoded as UTF-8 with invalid sequences replaced.
pub fn parse(buf: &[u8]) -> (r: Option<(Peer, bool)>)
    requires
        frame_readable(buf@),
    ensures
        r is None <==> frame_fields(buf@) is None,
        r matches Some((peer, request)) ==> peer_of_frame(buf@, peer) && request == frame_asks(buf@),
        r matches Some((peer, request)) ==> ({
            let h: int = if buf@[12] == 0x81 && buf@[13] == 0x00 { 18 } else { 14 };
            let o = h + 28;
            let n = buf@[o] as int;
            let m = buf@[o + 1 + n] as int;
            &&& peer.vlan == buf@[o + 2 + n + m] * 256 + buf@[o + 3 + n + m]
            &&& peer.mac.bytes() == buf@.subrange(6, 12)
            &&& request == (buf@[h + 6] == 0 && buf@[h + 7] == 3)
        }),
{
    let mac = MacAddress(buf[6], buf[7], buf[8], buf[9], buf[10], buf[11]);
    assert(mac.bytes() =~= buf@.subrange(6, 12));
    let mut offset: usize = ETHERNET_LEN;
    let outer = read_be16(buf, 12);
    let ether_type = if outer == ETHERTYPE_VLAN {
        offset = offset + VLAN_LEN;
        read_be16(buf, 16)
    } else {
        outer
    };
    if ether_type == ETHERTYPE_RARP {
        let request = read_be16(buf, offset + 6) == RARP_REQUEST;
        offset = offset + ARP_LEN;
        let len = buf[offset] as usize;
        let start = offset + 1;
        let end = start + len;
        let nic = lossy_string(&buf[start..end]);
        offset = end;
        let len = buf[offset] as usize;
        let start = offset + 1;
        let end = start + len;
        let host = lossy_string(&buf[start..end]);
        offset = end;
        let vlan = read_be16(buf, offset);
        Some((Peer { host, nic, mac, vlan }, request))
    } else {
        None
    }
}

/// Round trip: reading back a frame that `builder` wrote gives the host
/// name and interface name bytes that were written, the sender's MAC
/// address, the VLAN, and a request exactly when the frame was sent to the
/// broadcast address; and the frame can be read in full. This holds when
/// each name fits its one-byte length.
pub proof fn lemma_parse_built_frame(
    prior: Seq<u8>,
    dst: Seq<u8>,
    src: Seq<u8>,
    vlan: u16,
    name: Seq<u8>,
    host: Seq<u8>,
)
    requires
        dst.len() == 6,
        src.len() == 6,
        name.len() <= 255,
        host.len() <= 255,
        frame_len(vlan, name.len() as int, host.len() as int) <= prior.len(),
    ensures
        frame_readable(built_frame(prior, dst, src, vlan, name, host)),
        frame_fields(built_frame(prior, dst, src, vlan, name, host)) == Some(
            (
                host,
                name,
                src,
                vlan,
                dst == seq![0xffu8, 0xffu8, 0xffu8, 0xffu8, 0xffu8, 0xffu8],
            ),
        ),
{
    let f = built_frame(prior, dst, src, vlan, name, host);
    let h = header_len_for(vlan);
    let op: u16 = if dst == seq![0xffu8, 0xffu8, 0xffu8, 0xffu8, 0xffu8, 0xffu8] {
        3
    } else {
        4
    };
    let hd = built_headers(prior, dst, src, vlan);
    let arp = built_arp(prior, h, op);
    let pl = built_payload(name, host, vlan);
    assert(hd.len() == h);
    assert(arp.len() == 28);
    assert(f == hd + arp + pl + prior.skip(frame_len(vlan, name.len() as int, host.len() as int)));
    assert(f[12] == hd[12] && f[13] == hd[13]);
    if vlan != 0 {
        assert(f[16] == hd[16] && f[17] == hd[17]);
    }
    assert(arp_offset(f) == h);
    assert(inner_ethertype(f) == 0x8035);
    assert(f[h + 6] == arp[6] && f[h + 7] == arp[7]);
    assert(be16(f[h + 6], f[h + 7]) == op);
    let o = h + 28;
    assert(f[o] == pl[0]);
    assert(f[o] == name.len());
    let o2 = o + 1 + name.len();
    assert(f[o2] == pl[1 + name.len() as int]);
    assert(f[o2] == host.len());
    let o3 = o2 + 1 + host.len();
    assert(f[o3] == pl[2 + name.len() + host.len() as int]);
    assert(f[o3 + 1] == pl[3 + name.len() + host.len() as int]);
    assert(be16(f[o3], f[o3 + 1]) == vlan);
    assert(f.subrange(o + 1, o2) =~= name);
    assert(f.subrange(o2 + 1, o3) =~= host);
    assert(f.subrange(6, 12) =~= src);
}

} // verus!
