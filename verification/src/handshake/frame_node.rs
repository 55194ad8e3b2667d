//! The node's side of the handshake.

use vstd::prelude::*;
use crate::handshake::{
    client_verdict, copy_32, ed25519_public_key, ed25519_signature, reply_bytes, sign, version_of,
    HandshakeError, CHALLENGE_SIZE, HELLO_SIZE, REPLY_SIZE,
};

verus! {

/// What the node remembers between the client's hello and its reply.
pub struct VerifyStep {
    challenge: [u8; CHALLENGE_SIZE],
}

impl View for VerifyStep {
    type V = Seq<u8>;

    /// The challenge that the client sent.
    closed spec fn view(&self) -> Seq<u8> {
        self.challenge@
    }
}

/// Reads the client's hello: its version and its challenge.
pub fn initial(hello: &[u8; HELLO_SIZE]) -> (res: (VerifyStep, (u8, u8, u8)))
    ensures
        res.0@ == hello@.subrange(3, 35),
        res.1 == version_of(hello@),
        res.1 == (hello@[0], hello@[1], hello@[2]),
{
    let version = (hello[0], hello[1], hello[2]);
    let challenge = copy_32(hello, 3);
    (VerifyStep { challenge }, version)
}

impl VerifyStep {
    /// The reply to send: `version`, then the signature of the challenge under
    /// the secret key `signing_secret`. A client that sent this challenge and
    /// holds the public key of `signing_secret` accepts the reply, and takes
    /// `version` from it.
    pub fn verify(self, signing_secret: &[u8; 32], version: (u8, u8, u8)) -> (res: [u8; REPLY_SIZE])
        ensures
            res@ == reply_bytes(version, ed25519_signature(signing_secret@, self@)),
            res@[0] == version.0 && res@[1] == version.1 && res@[2] == version.2,
            res@.subrange(3, 67) == ed25519_signature(signing_secret@, self@),
            client_verdict(self@, ed25519_public_key(signing_secret@), res@) == Ok::<
                (u8, u8, u8),
                HandshakeError,
            >(version),
    {
        let signature = sign(signing_secret, &self.challenge);
        let mut buffer = [0u8; REPLY_SIZE];
        buffer[0] = version.0;
        buffer[1] = version.1;
        buffer[2] = version.2;
        let mut i: usize = 0;
        while i < 64
            invariant
                i <= 64,
                buffer@[0] == version.0,
                buffer@[1] == version.1,
                buffer@[2] == version.2,
                forall|j: int| 0 <= j < i ==> buffer@[3 + j] == signature@[j],
            decreases 64 - i,
        {
            buffer[3 + i] = signature[i];
            i = i + 1;
        }
        assert(buffer@ =~= reply_bytes(version, signature@));
        assert(buffer@.subrange(3, 67) =~= signature@);
        buffer
    }
}

} // verus!
