use vstd::prelude::*;

use crate::bytes::copy_range;
use crate::bytes::push_all;
use crate::bytes::spec_be64_bytes;
use crate::bytes::push_be64;
use crate::errors::ProtocolError;
use crate::varint::encode_varint;
use crate::varint::lemma_varint_decode_bound;
use crate::varint::pow128;
use crate::varint::read_varint;
use crate::varint::spec_varint;
use crate::varint::spec_varint_decode;
use crate::varint::VarIntStatus;

verus! {

// Every Server List Ping packet travels framed as
// `[VarInt length][VarInt id][payload]`, the length counting the id and the
// payload.
/// The frame around packet `id` and `payload`.
pub open spec fn spec_frame(id: u32, payload: Seq<u8>) -> Seq<u8> {
    spec_varint((spec_varint(id as nat).len() + payload.len()) as nat) + spec_varint(id as nat)
        + payload
}

/// The longest frame body the client accepts.
pub const MAX_FRAME_LEN: u32 = 0x200000;

/// The fixed handshake protocol version: the "any version" value, minus one
/// as an unsigned 32-bit VarInt.
pub const PROTOCOL_VERSION_ANY: u32 = 0xFFFFFFFF;

/// The standard server port, used when the target names none.
pub const DEFAULT_PORT: u16 = 25565;

/// The fixed eight-byte value sent with the ping.
pub const PING_PAYLOAD: u64 = 0x8008135;

proof fn lemma_varint_len(n: nat, k: nat)
    requires
        1 <= k,
        n < pow128(k),
    ensures
        1 <= spec_varint(n).len() <= k,
    decreases n,
{
    if n >= 128 {
        assert(pow128(k) == 128 * pow128((k - 1) as nat));
        if k == 1 {
            assert(pow128(1nat) == 128);
        }
        lemma_varint_len(n / 128, (k - 1) as nat);
    }
}

/// The VarInt encoding of a 32-bit value takes at most five bytes.
pub proof fn lemma_varint_len_u32(v: u32)
    ensures
        1 <= spec_varint(v as nat).len() <= 5,
{
    assert(pow128(0nat) == 1);
    assert(pow128(1nat) == 128);
    assert(pow128(2nat) == 16384);
    assert(pow128(3nat) == 2097152);
    assert(pow128(4nat) == 268435456);
    assert(pow128(5nat) == 34359738368);
    lemma_varint_len(v as nat, 5);
}

/// Build a frame around packet id `id` and `payload`.
pub fn build_frame(id: u32, payload: &Vec<u8>) -> (r: Vec<u8>)
    requires
        payload@.len() <= MAX_FRAME_LEN,
    ensures
        r@ == spec_frame(id, payload@),
{
    proof {
        lemma_varint_len_u32(id);
    }
    let idb = encode_varint(id);
    let body_len = (idb.len() + payload.len()) as u32;
    let mut out = encode_varint(body_len);
    push_all(&mut out, &idb);
    push_all(&mut out, payload);
    proof {
        assert(out@ =~= spec_frame(id, payload@));
    }
    out
}

/// The handshake payload: protocol version, the address as a
/// VarInt-length-prefixed string, the port big-endian, then next-state 1
/// (status).
pub open spec fn spec_handshake_payload(host: Seq<u8>, port: u16, pv: u32) -> Seq<u8> {
    spec_varint(pv as nat) + spec_varint(host.len()) + host + seq![
        (port / 0x100) as u8,
        (port % 0x100) as u8,
    ] + spec_varint(1)
}

/// Build the framed handshake packet (id 0) for `host:port`.
pub fn build_handshake(host: &Vec<u8>, port: u16, pv: u32) -> (r: Vec<u8>)
    requires
        host@.len() <= 255,
    ensures
        r@ == spec_frame(0, spec_handshake_payload(host@, port, pv)),
{
    let mut payload = encode_varint(pv);
    let hlen = encode_varint(host.len() as u32);
    push_all(&mut payload, &hlen);
    push_all(&mut payload, host);
    payload.push((port / 0x100) as u8);
    payload.push((port % 0x100) as u8);
    let ns = encode_varint(1);
    push_all(&mut payload, &ns);
    proof {
        assert(payload@ =~= spec_handshake_payload(host@, port, pv));
        lemma_varint_len_u32(pv);
        lemma_varint_len_u32(host@.len() as u32);
    }
    build_frame(0, &payload)
}

/// Build the framed status request packet: id 0, empty payload.
pub fn build_status_request() -> (r: Vec<u8>)
    ensures
        r@ == spec_frame(0, Seq::empty()),
{
    let payload: Vec<u8> = Vec::new();
    proof {
        assert(payload@ =~= Seq::<u8>::empty());
    }
    build_frame(0, &payload)
}

/// Build the framed ping packet: id 1, the eight big-endian payload bytes.
pub fn build_ping(payload: u64) -> (r: Vec<u8>)
    ensures
        r@ == spec_frame(1, spec_be64_bytes(payload)),
{
    let mut body: Vec<u8> = Vec::new();
    push_be64(&mut body, payload);
    proof {
        assert(body@ =~= spec_be64_bytes(payload));
    }
    build_frame(1, &body)
}

/// What the head of a receive buffer holds.
pub ghost enum SpecFrame {
    /// A full frame: packet id, payload, and the bytes it occupied.
    Frame(u32, Seq<u8>, int),
    /// More bytes are needed.
    Incomplete,
    /// No extension of the buffer yields an acceptable frame.
    Bad,
}

/// Decode the frame at the head of `s`: its length VarInt, then — once that
/// many bytes are present — the packet id VarInt and the payload.
pub open spec fn spec_frame_decode(s: Seq<u8>) -> SpecFrame {
    match spec_varint_decode(s, 5) {
        None => if s.len() < 5 {
            SpecFrame::Incomplete
        } else {
            SpecFrame::Bad
        },
        Some((l, n1)) => {
            if l > MAX_FRAME_LEN as nat {
                SpecFrame::Bad
            } else if s.len() < n1 + l {
                SpecFrame::Incomplete
            } else {
                let body = s.subrange(n1 as int, (n1 + l) as int);
                match spec_varint_decode(body, 5) {
                    None => SpecFrame::Bad,
                    Some((id, n2)) => if id > u32::MAX as nat {
                        SpecFrame::Bad
                    } else {
                        SpecFrame::Frame(id as u32, body.skip(n2 as int), (n1 + l) as int)
                    },
                }
            }
        },
    }
}

/// Result of reading one frame from a buffer that may still be growing.
#[derive(Debug)]
pub enum FrameStatus {
    /// A full frame: packet id, payload, and how many bytes it occupied.
    Frame(u32, Vec<u8>, usize),
    /// The buffer ends inside the frame; read more bytes.
    Incomplete,
    /// No extension of the buffer can yield an acceptable frame.
    Bad(ProtocolError),
}

/// Read the frame at the head of the buffer, distinguishing a buffer that
/// is merely short from one that can never frame correctly.
pub fn try_read_frame(buf: &Vec<u8>) -> (r: FrameStatus)
    ensures
        match r {
            FrameStatus::Frame(id, p, consumed) => spec_frame_decode(buf@) == SpecFrame::Frame(
                id,
                p@,
                consumed as int,
            ) && consumed <= buf@.len(),
            FrameStatus::Incomplete => spec_frame_decode(buf@) is Incomplete,
            FrameStatus::Bad(_) => spec_frame_decode(buf@) is Bad,
        },
{
    proof {
        assert(buf@.skip(0) =~= buf@);
    }
    match read_varint(buf, 0) {
        VarIntStatus::Incomplete => FrameStatus::Incomplete,
        VarIntStatus::Malformed => FrameStatus::Bad(ProtocolError::BadVarInt { offset: 0 }),
        VarIntStatus::Value(l, n1) => {
            proof {
                lemma_varint_decode_bound(buf@, 5);
            }
            if l > MAX_FRAME_LEN {
                return FrameStatus::Bad(ProtocolError::OversizedFrame { length: l });
            }
            if buf.len() - n1 < l as usize {
                return FrameStatus::Incomplete;
            }
            let body = copy_range(buf, n1, n1 + l as usize);
            proof {
                assert(body@.skip(0) =~= body@);
            }
            match read_varint(&body, 0) {
                VarIntStatus::Incomplete => FrameStatus::Bad(
                    ProtocolError::BadVarInt { offset: n1 },
                ),
                VarIntStatus::Malformed => FrameStatus::Bad(
                    ProtocolError::BadVarInt { offset: n1 },
                ),
                VarIntStatus::Value(id, n2) => {
                    proof {
                        lemma_varint_decode_bound(body@.skip(0), 5);
                        assert(body@.skip(0) =~= body@);
                    }
                    let payload = copy_range(&body, n2, body.len());
                    proof {
                        assert(payload@ =~= body@.skip(n2 as int));
                    }
                    FrameStatus::Frame(id, payload, n1 + l as usize)
                },
            }
        },
    }
}

/// Law: reading a built frame back yields its packet id and payload, and
/// consumes it whole.
pub proof fn lemma_frame_round_trip(id: u32, payload: Seq<u8>)
    requires
        payload.len() + 5 <= MAX_FRAME_LEN,
    ensures
        spec_frame_decode(spec_frame(id, payload)) == SpecFrame::Frame(
            id,
            payload,
            spec_frame(id, payload).len() as int,
        ),
{
    let idb = spec_varint(id as nat);
    lemma_varint_len_u32(id);
    let l = (idb.len() + payload.len()) as nat;
    assert(l < 0x100000000);
    let lb = spec_varint(l as u32 as nat);
    let s = spec_frame(id, payload);
    assert(l as u32 as nat == l);
    assert(s =~= lb + (idb + payload));
    crate::varint::lemma_varint_decode_prefix(l as u32, idb + payload);
    assert(spec_varint_decode(s, 5) == Some((l, lb.len())));
    lemma_varint_decode_bound(s, 5);
    assert(s.len() == lb.len() + l);
    let body = s.subrange(lb.len() as int, (lb.len() + l) as int);
    assert(body =~= idb + payload);
    crate::varint::lemma_varint_decode_prefix(id, payload);
    assert(spec_varint_decode(body, 5) == Some((id as nat, idb.len())));
    assert(body.skip(idb.len() as int) =~= payload);
}

/// Law: a status packet payload built as a VarInt length followed by that
/// many document bytes reads back as exactly that document.
pub proof fn lemma_status_payload_round_trip(doc: Seq<u8>)
    requires
        doc.len() < 0x100000000,
    ensures
        spec_status_payload(spec_varint(doc.len()) + doc) == Some(doc),
{
    let p = spec_varint(doc.len()) + doc;
    assert(doc.len() as u32 as nat == doc.len());
    crate::varint::lemma_varint_decode_prefix(doc.len() as u32, doc);
    let n = spec_varint(doc.len()).len() as int;
    assert(p.subrange(n, n + doc.len() as int) =~= doc);
}

/// The JSON document inside a status packet payload: one
/// VarInt-length-prefixed string filling the payload exactly.
pub open spec fn spec_status_payload(p: Seq<u8>) -> Option<Seq<u8>> {
    match spec_varint_decode(p, 5) {
        None => None,
        Some((l, n)) => if l <= u32::MAX as nat && p.len() == n + l {
            Some(p.subrange(n as int, (n + l) as int))
        } else {
            None
        },
    }
}

/// Extract the JSON document from a status packet payload.
pub fn read_status_payload(payload: &Vec<u8>) -> (r: Result<Vec<u8>, ProtocolError>)
    ensures
        match r {
            Ok(doc) => spec_status_payload(payload@) == Some(doc@),
            Err(_) => spec_status_payload(payload@) is None,
        },
{
    proof {
        assert(payload@.skip(0) =~= payload@);
    }
    match read_varint(payload, 0) {
        VarIntStatus::Incomplete => Err(ProtocolError::BadVarInt { offset: 0 }),
        VarIntStatus::Malformed => {
            proof {
                lemma_varint_decode_bound(payload@, 5);
            }
            Err(ProtocolError::BadVarInt { offset: 0 })
        },
        VarIntStatus::Value(l, n) => {
            proof {
                lemma_varint_decode_bound(payload@, 5);
            }
            if payload.len() - n != l as usize {
                return Err(ProtocolError::BadFrame { offset: n });
            }
            let doc = copy_range(payload, n, payload.len());
            Ok(doc)
        },
    }
}

} // verus!
