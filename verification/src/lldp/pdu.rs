//! LLDP data units: the sequence of TLVs that an LLDP Ethernet frame carries.
use vstd::prelude::*;
use crate::lldp::tlv::{Tlv, tlv_accepts, tlv_decoded, tlv_value_fits, decode_tlv, same_tlv, lemma_decoding_determined};

verus! {

/// A decoded LLDP data unit.
#[derive(Debug)]
pub struct Lldpdu {
    pub tlvs: Vec<Tlv>,
}

/// Why a frame is not decoded.
#[derive(PartialEq, Eq, Structural, Debug, Clone, Copy)]
pub enum ParserError {
    /// The frame is not an LLDP frame.
    NotLLDP,
    /// A TLV runs past the end of the payload, or is too short for its kind.
    WrongLength,
    /// The data unit does not begin with the Chassis ID, Port ID and TTL
    /// TLVs, in that order.
    WrongSequence,
}

/// Length of an Ethernet header.
pub const ETH_LEN: usize = 14;

/// The frame is an LLDP frame: it holds a full Ethernet header whose
/// EtherType (bytes 12 and 13, big-endian) is 0x88cc.
pub open spec fn is_lldp_frame(frame: Seq<u8>) -> bool {
    frame.len() >= 14 && frame[12] == 0x88 && frame[13] == 0xcc
}

/// Type code of the TLV header at `pos`: the high seven bits of its first
/// byte.
pub open spec fn header_type(payload: Seq<u8>, pos: int) -> u8 {
    (payload[pos] / 2) as u8
}

/// Length of the TLV header at `pos`, nine bits: the low bit of its first
/// byte is the high bit, worth 256, and its second byte the low eight.
pub open spec fn header_len(payload: Seq<u8>, pos: int) -> u16 {
    ((payload[pos] % 2) * 256 + payload[pos + 1]) as u16
}

/// Where the TLV after the one at `pos` starts.
pub open spec fn next_start(payload: Seq<u8>, pos: int) -> int {
    pos + 2 + header_len(payload, pos)
}

/// The walk over the TLV headers from `pos`: the positions of the headers
/// read, and whether the walk ended well. A header is read while at least
/// two bytes are left; the walk fails when a header's length runs past the
/// end, and ends well when fewer than two bytes are left.
pub open spec fn tlv_walk(payload: Seq<u8>, pos: int) -> (Seq<int>, bool)
    decreases payload.len() - pos,
{
    if 0 <= pos && pos + 1 < payload.len() {
        if payload.len() < next_start(payload, pos) {
            (Seq::empty(), false)
        } else {
            let rest = tlv_walk(payload, next_start(payload, pos));
            (seq![pos] + rest.0, rest.1)
        }
    } else {
        (Seq::empty(), true)
    }
}

/// The value bytes handed to the decoder of the TLV whose header is at
/// `pos`: all that follow the header, to the end of the payload. Each kind
/// reads from them what its length and subtype ask for.
pub open spec fn value_after(payload: Seq<u8>, pos: int) -> Seq<u8> {
    payload.skip(pos + 2)
}

/// The first error that reading the TLVs from `pos` on meets, where `k`
/// TLVs were read before: a TLV that runs past the end, or one that is too
/// short for its kind, gives `WrongLength`; among the first three TLVs, one
/// that is not the Chassis ID, Port ID or TTL TLV, in that order, gives
/// `WrongSequence`, and so does a data unit of fewer than three TLVs. A TLV
/// is too short for its kind when its kind would read past the end of the
/// payload.
pub open spec fn walk_error(payload: Seq<u8>, pos: int, k: int) -> Option<ParserError>
    decreases payload.len() - pos,
{
    if 0 <= pos && pos + 1 < payload.len() {
        if payload.len() < next_start(payload, pos) {
            Some(ParserError::WrongLength)
        } else if k < 3 && header_type(payload, pos) != k + 1 {
            Some(ParserError::WrongSequence)
        } else if !tlv_accepts(
            header_type(payload, pos),
            header_len(payload, pos),
            value_after(payload, pos),
        ) {
            Some(ParserError::WrongLength)
        } else {
            walk_error(payload, next_start(payload, pos), k + 1)
        }
    } else if k < 3 {
        Some(ParserError::WrongSequence)
    } else {
        None
    }
}

/// `tlvs` are the TLVs decoded at the header positions `starts`, in order.
pub open spec fn tlvs_decoded_at(tlvs: Seq<Tlv>, payload: Seq<u8>, starts: Seq<int>) -> bool {
    &&& tlvs.len() == starts.len()
    &&& forall|i: int|
        0 <= i < starts.len() ==> #[trigger] tlv_decoded(
            tlvs[i],
            header_type(payload, starts[i]),
            header_len(payload, starts[i]),
            value_after(payload, starts[i]),
        )
}

/// What decoding a payload gives: the first error that the walk over its
/// TLVs meets, else the TLVs that the walk reads, each decoded.
pub open spec fn payload_result(payload: Seq<u8>, res: Result<Lldpdu, ParserError>) -> bool {
    match walk_error(payload, 0, 0) {
        Some(e) => res == Err::<Lldpdu, ParserError>(e),
        None => res matches Ok(pdu) && tlvs_decoded_at(pdu.tlvs@, payload, tlv_walk(payload, 0).0),
    }
}

/// The data unit begins with the Chassis ID, Port ID and TTL TLVs.
pub open spec fn begins_with_mandatory(tlvs: Seq<Tlv>) -> bool {
    &&& tlvs.len() >= 3
    &&& tlvs[0] is ChassisId
    &&& tlvs[1] is PortId
    &&& tlvs[2] is Ttl
}

/// Where the walk from `pos` stops: past the last TLV it read, or `pos`
/// when it read none.
pub open spec fn walk_end(payload: Seq<u8>, pos: int) -> int {
    let starts = tlv_walk(payload, pos).0;
    if starts.len() == 0 {
        pos
    } else {
        next_start(payload, starts.last())
    }
}

/// The TLVs of a walk that ends well follow each other from `pos` without
/// gap or overlap, and at most one byte is left after the last one.
proof fn lemma_walk_chain(payload: Seq<u8>, pos: int)
    requires
        0 <= pos <= payload.len(),
        tlv_walk(payload, pos).1,
    ensures
        ({
            let starts = tlv_walk(payload, pos).0;
            &&& starts.len() > 0 ==> starts[0] == pos
            &&& forall|i: int|
                0 <= i < starts.len() - 1 ==> #[trigger] starts[i + 1] == next_start(
                    payload,
                    starts[i],
                )
            &&& pos <= walk_end(payload, pos) <= payload.len()
            &&& payload.len() - walk_end(payload, pos) <= 1
        }),
    decreases payload.len() - pos,
{
    if pos + 1 < payload.len() {
        let next = next_start(payload, pos);
        lemma_walk_chain(payload, next);
        let rest = tlv_walk(payload, next).0;
        let starts = tlv_walk(payload, pos).0;
        assert(starts == seq![pos] + rest);
        assert forall|i: int| 0 <= i < starts.len() - 1 implies #[trigger] starts[i + 1]
            == next_start(payload, starts[i]) by {
            if i > 0 {
                assert(starts[i] == rest[i - 1]);
                assert(starts[i + 1] == rest[i]);
                assert(rest[(i - 1) + 1] == next_start(payload, rest[i - 1]));
            } else {
                assert(starts[1] == rest[0]);
            }
        }
        if rest.len() > 0 {
            assert(starts.last() == rest.last());
        }
    }
}

/// Framing law: when a payload decodes, its TLVs tile it from the first
/// byte on, each starting where the one before it ends (two header bytes
/// plus its length later), and at most one trailing byte is left over.
pub proof fn lemma_decoded_tlvs_tile_payload(payload: Seq<u8>)
    requires
        tlv_walk(payload, 0).1,
    ensures
        ({
            let starts = tlv_walk(payload, 0).0;
            &&& starts.len() > 0 ==> starts[0] == 0
            &&& forall|i: int|
                0 <= i < starts.len() - 1 ==> #[trigger] starts[i + 1] == next_start(
                    payload,
                    starts[i],
                )
            &&& 0 <= walk_end(payload, 0) <= payload.len()
            &&& payload.len() - walk_end(payload, 0) <= 1
        }),
{
    lemma_walk_chain(payload, 0);
}

/// Two results of decoding hold the same: the same error, or as many TLVs,
/// each holding the same.
pub open spec fn same_result(a: Result<Lldpdu, ParserError>, b: Result<Lldpdu, ParserError>) -> bool {
    match (a, b) {
        (Err(x), Err(y)) => x == y,
        (Ok(p), Ok(q)) => p.tlvs@.len() == q.tlvs@.len() && forall|i: int|
            0 <= i < p.tlvs@.len() ==> same_tlv(#[trigger] p.tlvs@[i], q.tlvs@[i]),
        _ => false,
    }
}

/// Decoding a payload has one outcome: any two results that `from_bytes`
/// may give on it hold the same.
pub proof fn lemma_payload_result_determined(
    payload: Seq<u8>,
    a: Result<Lldpdu, ParserError>,
    b: Result<Lldpdu, ParserError>,
)
    requires
        payload_result(payload, a),
        payload_result(payload, b),
    ensures
        same_result(a, b),
{
    if walk_error(payload, 0, 0) is None {
        let starts = tlv_walk(payload, 0).0;
        let p = a->Ok_0.tlvs@;
        let q = b->Ok_0.tlvs@;
        assert forall|i: int| 0 <= i < p.len() implies same_tlv(#[trigger] p[i], q[i]) by {
            lemma_decoding_determined(
                p[i],
                q[i],
                header_type(payload, starts[i]),
                header_len(payload, starts[i]),
                value_after(payload, starts[i]),
            );
        }
    }
}

/// Decoding a frame is decoding its payload: for a result that `parser`
/// may give on a frame and one that `from_bytes` may give on the bytes past
/// its Ethernet header, a frame that is not an LLDP frame gives `NotLLDP`,
/// and an LLDP frame gives the same as its payload.
pub proof fn lemma_parser_is_from_bytes(
    frame: Seq<u8>,
    by_parser: Result<Lldpdu, ParserError>,
    by_from_bytes: Result<Lldpdu, ParserError>,
)
    requires
        !is_lldp_frame(frame) ==> by_parser == Err::<Lldpdu, ParserError>(ParserError::NotLLDP),
        is_lldp_frame(frame) ==> payload_result(frame.skip(14), by_parser),
        payload_result(frame.skip(14), by_from_bytes),
    ensures
        is_lldp_frame(frame) ==> same_result(by_parser, by_from_bytes),
        !is_lldp_frame(frame) ==> by_parser == Err::<Lldpdu, ParserError>(ParserError::NotLLDP),
{
    if is_lldp_frame(frame) {
        lemma_payload_result_determined(frame.skip(14), by_parser, by_from_bytes);
    }
}

impl Lldpdu {
    /// Decodes an Ethernet frame into an LLDP data unit.
    ///
    /// A frame that is not an LLDP frame gives `NotLLDP`; otherwise its
    /// payload, past the Ethernet header, is decoded as `from_bytes` does,
    /// with the same result.
    pub fn parser(frame: &[u8]) -> (res: Result<Self, ParserError>)
        ensures
            !is_lldp_frame(frame@) ==> res == Err::<Self, ParserError>(ParserError::NotLLDP),
            is_lldp_frame(frame@) ==> payload_result(frame@.skip(14), res),
    {
        if Self::is_lldp(frame) {
            let payload = &frame[14..frame.len()];
            assert(payload@ =~= frame@.skip(14));
            Self::from_bytes(payload)
        } else {
            Err(ParserError::NotLLDP)
        }
    }

    /// Whether a frame is an LLDP frame: long enough for an Ethernet header
    /// whose EtherType is 0x88cc.
    pub fn is_lldp(frame: &[u8]) -> (b: bool)
        ensures
            b == is_lldp_frame(frame@),
    {
        if frame.len() >= ETH_LEN {
            frame[12] == 0x88 && frame[13] == 0xcc
        } else {
            false
        }
    }

    /// Decodes the payload of an LLDP frame into its sequence of TLVs.
    ///
    /// Each TLV starts with a two-byte header: a seven-bit type code and a
    /// nine-bit length; the next TLV starts `length` bytes after the header.
    /// Each TLV is decoded from the bytes after its header, as far as its
    /// kind reads. The TLVs are read while at least two bytes are left. A
    /// length that runs past the end, or a kind that would read past the end
    /// of the payload, gives `WrongLength`; a data unit that does not begin with the Chassis ID,
    /// Port ID and TTL TLVs, in that order, gives `WrongSequence`. The
    /// caller checks that the frame is an LLDP frame.
    pub fn from_bytes(payload: &[u8]) -> (res: Result<Self, ParserError>)
        ensures
            payload_result(payload@, res),
            res is Ok ==> tlv_walk(payload@, 0).1,
            res matches Ok(pdu) ==> begins_with_mandatory(pdu.tlvs@),
    {
        let ghost p = payload@;
        let mut lldpdu = Lldpdu { tlvs: Vec::new() };
        let mut pos: usize = 0;
        let mut k: usize = 0;
        let ghost mut done: Seq<int> = Seq::empty();
        while payload.len() - pos > 1
            invariant
                pos <= payload.len(),
                p == payload@,
                k == done.len(),
                k <= pos,
                tlv_walk(p, 0).0 == done + tlv_walk(p, pos as int).0,
                tlv_walk(p, 0).1 == tlv_walk(p, pos as int).1,
                walk_error(p, 0, 0) == walk_error(p, pos as int, k as int),
                tlvs_decoded_at(lldpdu.tlvs@, p, done),
                forall|i: int| 0 <= i < done.len() && i < 3 ==> header_type(p, #[trigger] done[i]) == i + 1,
            decreases payload.len() - pos,
        {
            let b = payload[pos];
            let lldp_type: u8 = b / 2;
            let length: u16 = ((b % 2) as u16) * 256 + payload[pos + 1] as u16;
            if payload.len() - pos - 2 < length as usize {
                return Err(ParserError::WrongLength);
            }
            if k < 3 && lldp_type as usize != k + 1 {
                return Err(ParserError::WrongSequence);
            }
            let end = pos + 2 + length as usize;
            let value = &payload[pos + 2..payload.len()];
            assert(value@ =~= value_after(p, pos as int));
            if !tlv_value_fits(lldp_type, length, value) {
                return Err(ParserError::WrongLength);
            }
            proof {
                assert(tlv_walk(p, pos as int).0 =~= seq![pos as int] + tlv_walk(
                    p,
                    next_start(p, pos as int),
                ).0);
            }
            let tlv = decode_tlv(lldp_type, length, value);
            lldpdu.tlvs.push(tlv);
            proof {
                done = done.push(pos as int);
                assert(done + tlv_walk(p, next_start(p, pos as int)).0 =~= tlv_walk(p, 0).0);
            }
            pos = end;
            k = k + 1;
        }
        if k < 3 {
            return Err(ParserError::WrongSequence);
        }
        assert(tlv_walk(p, pos as int).0 =~= Seq::<int>::empty());
        assert(done =~= tlv_walk(p, 0).0);
        proof {
            let t = lldpdu.tlvs@;
            assert(header_type(p, done[0]) == 1);
            assert(header_type(p, done[1]) == 2);
            assert(header_type(p, done[2]) == 3);
            assert(tlv_decoded(t[0], header_type(p, done[0]), header_len(p, done[0]), value_after(p, done[0])));
            assert(tlv_decoded(t[1], header_type(p, done[1]), header_len(p, done[1]), value_after(p, done[1])));
            assert(tlv_decoded(t[2], header_type(p, done[2]), header_len(p, done[2]), value_after(p, done[2])));
        }
        Ok(lldpdu)
    }
}

} // verus!
