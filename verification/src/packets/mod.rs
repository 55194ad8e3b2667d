//! Packets and how they are framed on a stream: one byte for the kind, the
//! 32 bytes of the sender identity, the payload length (`u32`, big-endian),
//! then the payload.

pub mod types;

use vstd::prelude::*;
use crate::packets::types::{
    bytes_as_slice, bytes_from_vec, kind_code, kind_from_code, lemma_kind_code_roundtrip, Packet,
    PacketKind, PacketModel, IDENTITY_LENGTH, MAX_PAYLOAD_LENGTH,
};
use crate::wire::{
    append_bytes, lemma_u32_be_layout, lemma_u32_be_roundtrip, lemma_u32_from_be_value, u32_be_bytes, u32_from_be,
    u32_to_be,
};

verus! {

/// The length of a frame header: kind, identity and payload length.
pub const HEADER_LENGTH: usize = 37;

/// Why a packet could not be framed or a frame header not read.
#[derive(Clone, Copy, Debug, PartialEq, Eq, Structural)]
pub enum FrameError {
    /// The payload is longer than `MAX_PAYLOAD_LENGTH`.
    PayloadTooLarge,
    /// The first byte stands for no packet kind.
    InvalidKind,
}

/// The bytes that frame the packet `p`.
pub open spec fn frame_bytes(p: PacketModel) -> Seq<u8> {
    seq![kind_code(p.kind)] + p.identity + u32_be_bytes(p.payload.len() as u32) + p.payload
}

/// A frame header as a mathematical value.
pub struct FrameHeaderModel {
    pub kind: PacketKind,
    pub identity: Seq<u8>,
    pub length: nat,
}

/// Reads a frame header from the first 37 bytes of `s`.
pub open spec fn read_frame_header(s: Seq<u8>) -> Result<FrameHeaderModel, FrameError> {
    match kind_from_code(s[0]) {
        None => Err(FrameError::InvalidKind),
        Some(kind) => {
            let length = u32_from_be(s.subrange(33, 37));
            if length > MAX_PAYLOAD_LENGTH {
                Err(FrameError::PayloadTooLarge)
            } else {
                Ok(FrameHeaderModel { kind, identity: s.subrange(1, 33), length: length as nat })
            }
        },
    }
}

/// The header of a frame: what is known before the payload is read.
pub struct FrameHeader {
    pub kind: PacketKind,
    pub identity: [u8; IDENTITY_LENGTH],
    /// How many payload bytes follow the header.
    pub length: usize,
}

impl View for FrameHeader {
    type V = FrameHeaderModel;

    open spec fn view(&self) -> FrameHeaderModel {
        FrameHeaderModel { kind: self.kind, identity: self.identity@, length: self.length as nat }
    }
}

impl FrameHeader {
    /// The packet that this header announces, with `payload` as its payload.
    pub fn into_packet(self, payload: Vec<u8>) -> (res: Packet)
        ensures
            res@ == (PacketModel { kind: self.kind, identity: self.identity@, payload: payload@ }),
    {
        Packet::new_with_identity(self.kind, self.identity, bytes_from_vec(payload))
    }
}

/// The bytes that frame `p`; fails when its payload is too large.
pub fn encode_packet(p: &Packet) -> (res: Result<Vec<u8>, FrameError>)
    ensures
        p@.payload.len() > MAX_PAYLOAD_LENGTH ==> res == Err::<Vec<u8>, FrameError>(FrameError::PayloadTooLarge),
        p@.payload.len() <= MAX_PAYLOAD_LENGTH ==> (res matches Ok(v) && v@ == frame_bytes(p@)),
        res matches Ok(v) ==> {
            &&& v@.len() == HEADER_LENGTH + p@.payload.len()
            &&& v@[0] == kind_code(p.kind)
            &&& v@.subrange(1, 33) == p.identity@
            &&& u32_from_be(v@.subrange(33, 37)) == p@.payload.len()
            &&& v@.skip(37) == p@.payload
        },
{
    let payload = bytes_as_slice(&p.payload);
    let length = payload.len();
    if length > MAX_PAYLOAD_LENGTH {
        return Err(FrameError::PayloadTooLarge);
    }
    let mut buffer: Vec<u8> = Vec::with_capacity(HEADER_LENGTH + length);
    buffer.push(p.kind.code());
    append_bytes(&mut buffer, &p.identity);
    let len_bytes = u32_to_be(length as u32);
    append_bytes(&mut buffer, &len_bytes);
    append_bytes(&mut buffer, payload);
    assert(buffer@ =~= frame_bytes(p@));
    proof {
        lemma_frame_layout(p@);
    }
    Ok(buffer)
}

/// Reads a frame header: the kind, the sender identity and the payload length.
pub fn decode_header(header: &[u8; HEADER_LENGTH]) -> (res: Result<FrameHeader, FrameError>)
    ensures
        match read_frame_header(header@) {
            Ok(h) => res matches Ok(r) && r@ == h,
            Err(e) => res == Err::<FrameHeader, FrameError>(e),
        },
        res matches Ok(r) ==> {
            &&& kind_code(r.kind) == header@[0]
            &&& r.identity@ == header@.subrange(1, 33)
            &&& r.length == header@[33] * 0x100_0000 + header@[34] * 0x1_0000 + header@[35] * 256 + header@[36]
        },
        (res matches Err(e) && e == FrameError::InvalidKind) <==> kind_from_code(header@[0]) is None,
{
    let kind = match PacketKind::from_code(header[0]) {
        Some(k) => k,
        None => return Err(FrameError::InvalidKind),
    };
    let mut identity = [0u8; IDENTITY_LENGTH];
    let mut i: usize = 0;
    while i < IDENTITY_LENGTH
        invariant
            i <= IDENTITY_LENGTH,
            forall|j: int| 0 <= j < i ==> identity@[j] == header@[j + 1],
        decreases IDENTITY_LENGTH - i,
    {
        identity[i] = header[i + 1];
        i = i + 1;
    }
    assert(identity@ =~= header@.subrange(1, 33));
    let length = (header[33] as u32) * 0x100_0000 + (header[34] as u32) * 0x1_0000 + (header[35] as u32)
        * 256 + (header[36] as u32);
    assert(length == u32_from_be(header@.subrange(33, 37)));
    proof {
        lemma_u32_from_be_value(header@.subrange(33, 37));
        lemma_kind_code_roundtrip(kind, header@[0]);
    }
    if length as usize > MAX_PAYLOAD_LENGTH {
        return Err(FrameError::PayloadTooLarge);
    }
    Ok(FrameHeader { kind, identity, length: length as usize })
}

/// A framed packet reads back: its header gives the packet's kind, identity
/// and payload length, and the payload follows it.
pub proof fn lemma_frame_roundtrip(p: PacketModel)
    requires
        p.identity.len() == IDENTITY_LENGTH,
        p.payload.len() <= MAX_PAYLOAD_LENGTH,
    ensures
        read_frame_header(frame_bytes(p).take(HEADER_LENGTH as int)) == Ok::<FrameHeaderModel, FrameError>(
            FrameHeaderModel { kind: p.kind, identity: p.identity, length: p.payload.len() },
        ),
        frame_bytes(p).skip(HEADER_LENGTH as int) == p.payload,
{
    let s = frame_bytes(p);
    let h = s.take(37);
    let n = p.payload.len() as u32;
    lemma_kind_code_roundtrip(p.kind, h[0]);
    lemma_u32_be_roundtrip(n);
    assert(h.subrange(1, 33) =~= p.identity);
    assert(h.subrange(33, 37) =~= u32_be_bytes(n));
    assert(s.skip(37) =~= p.payload);
}

/// A frame holds, in this order and as they are: the kind's byte, the 32
/// bytes of the sender identity, the payload length in four bytes with the
/// highest first, and the payload.
pub proof fn lemma_frame_layout(p: PacketModel)
    requires
        p.identity.len() == IDENTITY_LENGTH,
        p.payload.len() <= MAX_PAYLOAD_LENGTH,
    ensures
        frame_bytes(p).len() == HEADER_LENGTH + p.payload.len(),
        frame_bytes(p)[0] == kind_code(p.kind),
        frame_bytes(p).subrange(1, 33) == p.identity,
        p.payload.len() == frame_bytes(p)[33] * 0x100_0000 + frame_bytes(p)[34] * 0x1_0000 + frame_bytes(p)[35]
            * 256 + frame_bytes(p)[36],
        u32_from_be(frame_bytes(p).subrange(33, 37)) == p.payload.len(),
        frame_bytes(p).skip(37) == p.payload,
{
    let s = frame_bytes(p);
    let n = p.payload.len() as u32;
    lemma_u32_be_layout(n);
    lemma_u32_be_roundtrip(n);
    assert(s.subrange(1, 33) =~= p.identity);
    assert(s.subrange(33, 37) =~= u32_be_bytes(n));
    assert(s.skip(37) =~= p.payload);
}

/// A header read from a frame takes the kind from its first byte, the
/// identity as is from the next 32, and the length from the four after them,
/// highest byte first; it fails on an unknown kind byte first, then on a
/// length over the limit.
pub proof fn lemma_frame_header_fields(s: Seq<u8>)
    requires
        s.len() >= HEADER_LENGTH,
    ensures
        kind_from_code(s[0]) is None ==> read_frame_header(s) == Err::<FrameHeaderModel, FrameError>(
            FrameError::InvalidKind,
        ),
        read_frame_header(s) matches Ok(h) ==> {
            &&& kind_code(h.kind) == s[0]
            &&& h.identity == s.subrange(1, 33)
            &&& h.length == s[33] * 0x100_0000 + s[34] * 0x1_0000 + s[35] * 256 + s[36]
            &&& h.length <= MAX_PAYLOAD_LENGTH
        },
        kind_from_code(s[0]) is Some ==> (read_frame_header(s) is Err <==> s[33] * 0x100_0000 + s[34]
            * 0x1_0000 + s[35] * 256 + s[36] > MAX_PAYLOAD_LENGTH),
{
    lemma_u32_from_be_value(s.subrange(33, 37));
    if let Some(k) = kind_from_code(s[0]) {
        lemma_kind_code_roundtrip(k, s[0]);
    }
}

} // verus!
