//! Packets: a kind, the identity of the sender, and a payload of bytes.

use vstd::prelude::*;
use bytes::Bytes;

verus! {

/// The largest payload that a packet may carry.
pub const MAX_PAYLOAD_LENGTH: usize = 1048576;

/// The length of a sender identity.
pub const IDENTITY_LENGTH: usize = 32;

#[verifier::external_type_specification]
#[verifier::external_body]
pub struct ExBytes(bytes::Bytes);

/// The bytes that a `Bytes` buffer holds.
pub uninterp spec fn bytes_contents(b: Bytes) -> Seq<u8>;

/// `Bytes::new`: an empty buffer.
#[verifier::external_body]
fn bytes_new() -> (res: Bytes)
    ensures
        bytes_contents(res) == Seq::<u8>::empty(),
{
    Bytes::new()
}

/// `Bytes::from::<Vec<u8>>`: a buffer that holds the bytes of `v`, in order.
#[verifier::external_body]
pub(crate) fn bytes_from_vec(v: Vec<u8>) -> (res: Bytes)
    ensures
        bytes_contents(res) == v@,
{
    Bytes::from(v)
}

/// `<Bytes as AsRef<[u8]>>::as_ref`: the bytes that `b` holds, as a slice.
#[verifier::external_body]
pub(crate) fn bytes_as_slice(b: &Bytes) -> (res: &[u8])
    ensures
        res@ == bytes_contents(*b),
{
    b.as_ref()
}

/// What a packet asks for or answers.
#[derive(Clone, Copy, Debug, PartialEq, Eq, Structural)]
pub enum PacketKind {
    Ping,
    Pong,
    Okay,
    Error,
    GetSpace,
    WriteBlock,
    ReadBlock,
}

/// The byte that stands for each kind on the wire.
pub open spec fn kind_code(k: PacketKind) -> u8 {
    match k {
        PacketKind::Ping => 1,
        PacketKind::Pong => 2,
        PacketKind::Okay => 3,
        PacketKind::Error => 4,
        PacketKind::GetSpace => 6,
        PacketKind::WriteBlock => 7,
        PacketKind::ReadBlock => 8,
    }
}

/// The kind that the byte `b` stands for, if any.
pub open spec fn kind_from_code(b: u8) -> Option<PacketKind> {
    if b == 1 {
        Some(PacketKind::Ping)
    } else if b == 2 {
        Some(PacketKind::Pong)
    } else if b == 3 {
        Some(PacketKind::Okay)
    } else if b == 4 {
        Some(PacketKind::Error)
    } else if b == 6 {
        Some(PacketKind::GetSpace)
    } else if b == 7 {
        Some(PacketKind::WriteBlock)
    } else if b == 8 {
        Some(PacketKind::ReadBlock)
    } else {
        None
    }
}

impl PacketKind {
    /// The byte that stands for this kind.
    pub fn code(self) -> (res: u8)
        ensures
            res == kind_code(self),
    {
        match self {
            PacketKind::Ping => 1,
            PacketKind::Pong => 2,
            PacketKind::Okay => 3,
            PacketKind::Error => 4,
            PacketKind::GetSpace => 6,
            PacketKind::WriteBlock => 7,
            PacketKind::ReadBlock => 8,
        }
    }

    /// The kind that the byte `b` stands for; `None` for any other byte.
    pub fn from_code(b: u8) -> (res: Option<PacketKind>)
        ensures
            res == kind_from_code(b),
    {
        match b {
            1 => Some(PacketKind::Ping),
            2 => Some(PacketKind::Pong),
            3 => Some(PacketKind::Okay),
            4 => Some(PacketKind::Error),
            6 => Some(PacketKind::GetSpace),
            7 => Some(PacketKind::WriteBlock),
            8 => Some(PacketKind::ReadBlock),
            _ => None,
        }
    }
}

/// Each kind is read back from its byte, and a byte that stands for a kind
/// is that kind's byte.
pub proof fn lemma_kind_code_roundtrip(k: PacketKind, b: u8)
    ensures
        kind_from_code(kind_code(k)) == Some(k),
        kind_from_code(b) == Some(k) ==> kind_code(k) == b,
{
}

/// The byte of every kind on the wire: Ping 1, Pong 2, Okay 3, Error 4,
/// GetSpace 6, WriteBlock 7, ReadBlock 8; the bytes 0, 5 and those above 8
/// stand for no kind.
pub proof fn lemma_kind_codes(b: u8)
    ensures
        kind_code(PacketKind::Ping) == 1,
        kind_code(PacketKind::Pong) == 2,
        kind_code(PacketKind::Okay) == 3,
        kind_code(PacketKind::Error) == 4,
        kind_code(PacketKind::GetSpace) == 6,
        kind_code(PacketKind::WriteBlock) == 7,
        kind_code(PacketKind::ReadBlock) == 8,
        kind_from_code(b) is None <==> (b == 0 || b == 5 || b > 8),
{
}

/// A packet as a mathematical value.
pub struct PacketModel {
    pub kind: PacketKind,
    pub identity: Seq<u8>,
    pub payload: Seq<u8>,
}

/// A packet of some kind, from some sender, with a payload.
#[derive(Debug)]
pub struct Packet {
    pub kind: PacketKind,
    pub identity: [u8; IDENTITY_LENGTH],
    pub payload: Bytes,
}

impl View for Packet {
    type V = PacketModel;

    open spec fn view(&self) -> PacketModel {
        PacketModel { kind: self.kind, identity: self.identity@, payload: bytes_contents(self.payload) }
    }
}

impl Packet {
    /// A packet with the given kind and payload and an identity of zeros.
    pub fn new(kind: PacketKind, payload: Bytes) -> (res: Self)
        ensures
            res@ == (PacketModel { kind, identity: Seq::new(32, |i: int| 0u8), payload: bytes_contents(payload) }),
    {
        let res = Packet { kind, identity: [0u8; IDENTITY_LENGTH], payload };
        assert(res.identity@ =~= Seq::new(32, |i: int| 0u8));
        res
    }

    /// A packet with the given kind, identity and payload.
    pub fn new_with_identity(kind: PacketKind, identity: [u8; IDENTITY_LENGTH], payload: Bytes) -> (res: Self)
        ensures
            res@ == (PacketModel { kind, identity: identity@, payload: bytes_contents(payload) }),
    {
        Packet { kind, identity, payload }
    }

    /// A packet with the given kind, an identity of zeros and no payload.
    pub fn new_empty(kind: PacketKind) -> (res: Self)
        ensures
            res@ == (PacketModel { kind, identity: Seq::new(32, |i: int| 0u8), payload: Seq::empty() }),
    {
        let res = Packet { kind, identity: [0u8; IDENTITY_LENGTH], payload: bytes_new() };
        assert(res.identity@ =~= Seq::new(32, |i: int| 0u8));
        res
    }

    /// A packet with the given kind and identity and no payload.
    pub fn new_empty_with_identity(kind: PacketKind, identity: [u8; IDENTITY_LENGTH]) -> (res: Self)
        ensures
            res@ == (PacketModel { kind, identity: identity@, payload: Seq::empty() }),
    {
        Packet { kind, identity, payload: bytes_new() }
    }
}

} // verus!
