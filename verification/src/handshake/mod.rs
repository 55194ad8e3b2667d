//! The challenge handshake by which a node proves its identity to a client.
//!
//! The client sends its version (three bytes) and a random 32-byte
//! challenge. The node answers with its own version and its Ed25519
//! signature of the challenge (64 bytes). The client accepts the answer
//! when the signature verifies under the node's public key.

pub mod frame_client;
pub mod frame_node;

use vstd::prelude::*;
use ed25519_dalek::{Signer, Verifier};
use rand::RngExt;

verus! {

/// The protocol's signature: the bytes of "KSv1".
pub const HS_SIGNATURE: [u8; 4] = [0x4b, 0x53, 0x76, 0x31];

/// The length of a version: major, minor, patch.
pub const VERSION_SIZE: usize = 3;

/// The length of a challenge.
pub const CHALLENGE_SIZE: usize = 32;

/// The length of an Ed25519 signature.
pub const SIGNATURE_LENGTH: usize = 64;

/// The length of the client's hello: version and challenge.
pub const HELLO_SIZE: usize = 35;

/// The length of the node's reply: version and signature.
pub const REPLY_SIZE: usize = 67;

/// Why a handshake failed.
#[derive(Clone, Copy, Debug, PartialEq, Eq, Structural)]
pub enum HandshakeError {
    /// The node's signature of the challenge does not verify.
    BadSignature,
}

/// The Ed25519 signature of `message` under the secret key `secret`.
pub uninterp spec fn ed25519_signature(secret: Seq<u8>, message: Seq<u8>) -> Seq<u8>;

/// Whether `public` is a valid Ed25519 public key under which `signature`
/// verifies for `message`.
pub uninterp spec fn ed25519_accepts(public: Seq<u8>, message: Seq<u8>, signature: Seq<u8>) -> bool;

/// The Ed25519 public key that belongs to the secret key `secret`.
pub uninterp spec fn ed25519_public_key(secret: Seq<u8>) -> Seq<u8>;

/// `SigningKey::verifying_key` of the key made by `SigningKey::from_bytes(secret)`,
/// taken by `VerifyingKey::to_bytes`: the public key is named as a function
/// of the secret key alone.
#[verifier::external_body]
fn derive_public_key(secret: &[u8; 32]) -> (res: [u8; 32])
    ensures
        res@ == ed25519_public_key(secret@),
{
    ed25519_dalek::SigningKey::from_bytes(secret).verifying_key().to_bytes()
}

/// `<SigningKey as Signer<Signature>>::sign` with the key made by
/// `SigningKey::from_bytes(secret)`, the signature taken by `to_bytes`.
/// Ed25519 signing is deterministic, so the result is named as a function
/// of the secret key and the message alone. The contract also claims what
/// the crate documents of every signature it makes: it verifies, for the same
/// message, under the public key of the same secret key.
#[verifier::external_body]
fn sign(secret: &[u8; 32], message: &[u8]) -> (res: [u8; SIGNATURE_LENGTH])
    ensures
        res@ == ed25519_signature(secret@, message@),
        ed25519_accepts(ed25519_public_key(secret@), message@, res@),
{
    ed25519_dalek::SigningKey::from_bytes(secret).sign(message).to_bytes()
}

/// `<VerifyingKey as Verifier<Signature>>::verify` with the key made by
/// `VerifyingKey::from_bytes(public)` and the signature by
/// `Signature::from_bytes(signature)`: `true` when the key decodes and the
/// signature verifies, `false` otherwise. The result is named as a function of
/// the three byte strings alone; nothing is claimed of which strings it
/// accepts.
#[verifier::external_body]
fn verify(public: &[u8; 32], message: &[u8], signature: &[u8; SIGNATURE_LENGTH]) -> (res: bool)
    ensures
        res == ed25519_accepts(public@, message@, signature@),
{
    match ed25519_dalek::VerifyingKey::from_bytes(public) {
        Ok(key) => key.verify(message, &ed25519_dalek::Signature::from_bytes(signature)).is_ok(),
        Err(_) => false,
    }
}

/// `rand::rng().random::<[u8; 32]>()`: 32 bytes from the thread's random
/// number generator. Nothing is claimed of them. The generator panics if the
/// operating system gives it no randomness to seed from; no clause can rule
/// that out.
#[verifier::external_body]
fn random_challenge() -> (res: [u8; CHALLENGE_SIZE]) {
    rand::rng().random()
}

/// The public key under which the replies of a node whose secret key is
/// `secret` verify.
pub fn public_key(secret: &[u8; 32]) -> (res: [u8; 32])
    ensures
        res@ == ed25519_public_key(secret@),
{
    derive_public_key(secret)
}

/// A fresh random challenge.
pub fn generate_challenge() -> (res: [u8; CHALLENGE_SIZE]) {
    random_challenge()
}

/// The bytes of a version, major first.
pub open spec fn version_bytes(version: (u8, u8, u8)) -> Seq<u8> {
    seq![version.0, version.1, version.2]
}

/// The client's hello: its version, then the challenge.
pub open spec fn hello_bytes(version: (u8, u8, u8), challenge: Seq<u8>) -> Seq<u8> {
    version_bytes(version) + challenge
}

/// The node's reply: its version, then its signature of the challenge.
pub open spec fn reply_bytes(version: (u8, u8, u8), signature: Seq<u8>) -> Seq<u8> {
    version_bytes(version) + signature
}

/// The version that the first three bytes of `s` give.
pub open spec fn version_of(s: Seq<u8>) -> (u8, u8, u8) {
    (s[0], s[1], s[2])
}

/// How a client that sent `challenge` judges the reply `reply` of a node
/// whose public key is `public`: the node's version when the signature in
/// the reply verifies, `BadSignature` when it does not.
pub open spec fn client_verdict(challenge: Seq<u8>, public: Seq<u8>, reply: Seq<u8>) -> Result<
    (u8, u8, u8),
    HandshakeError,
> {
    if ed25519_accepts(public, challenge, reply.subrange(3, 67)) {
        Ok(version_of(reply))
    } else {
        Err(HandshakeError::BadSignature)
    }
}

/// Copies the 32 bytes of `src` that start at `start`.
fn copy_32(src: &[u8], start: usize) -> (res: [u8; 32])
    requires
        start + 32 <= src@.len(),
    ensures
        res@ == src@.subrange(start as int, start + 32),
{
    let mut res = [0u8; 32];
    let mut i: usize = 0;
    while i < 32
        invariant
            i <= 32,
            start + 32 <= src.len(),
            forall|j: int| 0 <= j < i ==> res@[j] == src@[start + j],
        decreases 32 - i,
    {
        res[i] = src[start + i];
        i = i + 1;
    }
    assert(res@ =~= src@.subrange(start as int, start + 32));
    res
}

/// Copies the 64 bytes of `src` that start at `start`.
fn copy_64(src: &[u8], start: usize) -> (res: [u8; 64])
    requires
        start + 64 <= src@.len(),
    ensures
        res@ == src@.subrange(start as int, start + 64),
{
    let mut res = [0u8; 64];
    let mut i: usize = 0;
    while i < 64
        invariant
            i <= 64,
            start + 64 <= src.len(),
            forall|j: int| 0 <= j < i ==> res@[j] == src@[start + j],
        decreases 64 - i,
    {
        res[i] = src[start + i];
        i = i + 1;
    }
    assert(res@ =~= src@.subrange(start as int, start + 64));
    res
}

/// The handshake carries what each side sends: the node reads from the
/// client's hello the client's version and challenge, and the client, judging
/// the node's reply, checks exactly the node's signature of that challenge
/// and takes the node's version when it verifies.
pub proof fn lemma_handshake_carries(
    client_version: (u8, u8, u8),
    node_version: (u8, u8, u8),
    challenge: Seq<u8>,
    secret: Seq<u8>,
    public: Seq<u8>,
)
    requires
        challenge.len() == CHALLENGE_SIZE,
        ed25519_signature(secret, challenge).len() == SIGNATURE_LENGTH,
    ensures
        version_of(hello_bytes(client_version, challenge)) == client_version,
        hello_bytes(client_version, challenge).subrange(3, 35) == challenge,
        client_verdict(challenge, public, reply_bytes(node_version, ed25519_signature(secret, challenge)))
            == if ed25519_accepts(public, challenge, ed25519_signature(secret, challenge)) {
            Ok::<(u8, u8, u8), HandshakeError>(node_version)
        } else {
            Err::<(u8, u8, u8), HandshakeError>(HandshakeError::BadSignature)
        },
{
    let sig = ed25519_signature(secret, challenge);
    assert(hello_bytes(client_version, challenge).subrange(3, 35) =~= challenge);
    assert(reply_bytes(node_version, sig).subrange(3, 67) =~= sig);
}

/// The hello holds the client's version in its first three bytes, major
/// first, and the challenge as is in the thirty-two after them.
pub proof fn lemma_hello_layout(version: (u8, u8, u8), challenge: Seq<u8>)
    requires
        challenge.len() == CHALLENGE_SIZE,
    ensures
        hello_bytes(version, challenge).len() == HELLO_SIZE,
        hello_bytes(version, challenge)[0] == version.0,
        hello_bytes(version, challenge)[1] == version.1,
        hello_bytes(version, challenge)[2] == version.2,
        hello_bytes(version, challenge).subrange(3, 35) == challenge,
{
    assert(hello_bytes(version, challenge).subrange(3, 35) =~= challenge);
}

/// The reply holds the node's version in its first three bytes, major
/// first, and the signature as is in the sixty-four after them.
pub proof fn lemma_reply_layout(version: (u8, u8, u8), signature: Seq<u8>)
    requires
        signature.len() == SIGNATURE_LENGTH,
    ensures
        reply_bytes(version, signature).len() == REPLY_SIZE,
        reply_bytes(version, signature)[0] == version.0,
        reply_bytes(version, signature)[1] == version.1,
        reply_bytes(version, signature)[2] == version.2,
        reply_bytes(version, signature).subrange(3, 67) == signature,
{
    assert(reply_bytes(version, signature).subrange(3, 67) =~= signature);
}

/// A client accepts a reply exactly when bytes 3 to 67 of it, as they are,
/// verify as a signature of its challenge under the node's public key, and
/// then takes the node's version from the first three bytes.
pub proof fn lemma_client_checks_reply_signature(challenge: Seq<u8>, public: Seq<u8>, reply: Seq<u8>)
    requires
        reply.len() == REPLY_SIZE,
    ensures
        client_verdict(challenge, public, reply) is Ok <==> ed25519_accepts(public, challenge, reply.subrange(3, 67)),
        client_verdict(challenge, public, reply) is Ok ==> client_verdict(challenge, public, reply) == Ok::<
            (u8, u8, u8),
            HandshakeError,
        >((reply[0], reply[1], reply[2])),
        client_verdict(challenge, public, reply) is Err ==> client_verdict(challenge, public, reply) == Err::<
            (u8, u8, u8),
            HandshakeError,
        >(HandshakeError::BadSignature),
{
}

} // verus!
