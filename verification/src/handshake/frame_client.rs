//! The client's side of the handshake.

use vstd::prelude::*;
use crate::handshake::{
    client_verdict, copy_64, ed25519_accepts, generate_challenge, hello_bytes, verify, HandshakeError, CHALLENGE_SIZE,
    HELLO_SIZE, REPLY_SIZE,
};

verus! {

/// What the client remembers between its hello and the node's reply.
pub struct VerifyStep {
    challenge: [u8; CHALLENGE_SIZE],
}

impl View for VerifyStep {
    type V = Seq<u8>;

    /// The challenge that the client sent.
    closed spec fn view(&self) -> Seq<u8> {
        self.challenge@
    }
}

/// The hello that carries `version` and `challenge`.
pub fn hello(version: &(u8, u8, u8), challenge: &[u8; CHALLENGE_SIZE]) -> (res: [u8; HELLO_SIZE])
    ensures
        res@ == hello_bytes(*version, challenge@),
        res@[0] == version.0 && res@[1] == version.1 && res@[2] == version.2,
        res@.subrange(3, 35) == challenge@,
{
    let mut buffer = [0u8; HELLO_SIZE];
    buffer[0] = version.0;
    buffer[1] = version.1;
    buffer[2] = version.2;
    let mut i: usize = 0;
    while i < CHALLENGE_SIZE
        invariant
            i <= CHALLENGE_SIZE,
            buffer@[0] == version.0,
            buffer@[1] == version.1,
            buffer@[2] == version.2,
            forall|j: int| 0 <= j < i ==> buffer@[3 + j] == challenge@[j],
        decreases CHALLENGE_SIZE - i,
    {
        buffer[3 + i] = challenge[i];
        i = i + 1;
    }
    assert(buffer@ =~= hello_bytes(*version, challenge@));
    assert(buffer@.subrange(3, 35) =~= challenge@);
    buffer
}

/// Starts a handshake: a fresh random challenge, remembered, and the hello
/// to send, which carries `version` and that challenge.
pub fn initial(version: &(u8, u8, u8)) -> (res: (VerifyStep, [u8; HELLO_SIZE]))
    ensures
        res.0@.len() == CHALLENGE_SIZE,
        res.1@ == hello_bytes(*version, res.0@),
{
    let challenge = generate_challenge();
    let buffer = hello(version, &challenge);
    (VerifyStep { challenge }, buffer)
}

impl VerifyStep {
    /// The challenge that the client sent.
    pub fn challenge(&self) -> (res: [u8; CHALLENGE_SIZE])
        ensures
            res@ == self@,
    {
        self.challenge
    }

    /// Judges the node's reply: the node's version when its signature of the
    /// challenge verifies under `node_public_key`.
    pub fn verify(self, reply: &[u8; REPLY_SIZE], node_public_key: &[u8; 32]) -> (res: Result<
        (u8, u8, u8),
        HandshakeError,
    >)
        ensures
            res == client_verdict(self@, node_public_key@, reply@),
            res is Ok <==> ed25519_accepts(node_public_key@, self@, reply@.subrange(3, 67)),
            res is Ok ==> res == Ok::<(u8, u8, u8), HandshakeError>((reply@[0], reply@[1], reply@[2])),
    {
        let version = (reply[0], reply[1], reply[2]);
        let signature = copy_64(reply, 3);
        if verify(node_public_key, &self.challenge, &signature) {
            Ok(version)
        } else {
            Err(HandshakeError::BadSignature)
        }
    }
}

} // verus!
