use ed25519_dalek::SigningKey;
use ksproto::handshake::{frame_client, frame_node, generate_challenge, public_key, HandshakeError};
use ksproto::node::{check_version, respond, ConnectionError, VERSION};
use ksproto::packets::types::{Packet, PacketKind};

fn public_of(secret: &[u8; 32]) -> [u8; 32] {
    SigningKey::from_bytes(secret).verifying_key().to_bytes()
}

#[test]
fn public_key_is_the_verifying_key() {
    assert_eq!(public_key(&[42u8; 32]), public_of(&[42u8; 32]));
    assert_ne!(public_key(&[42u8; 32]), public_key(&[43u8; 32]));
}

#[test]
fn rejects_unrelated_key_bytes() {
    let secret = [9u8; 32];
    let (client, hello) = frame_client::initial(&(0, 1, 0));
    let (node, _) = frame_node::initial(&hello);
    let reply = node.verify(&secret, (0, 1, 0));
    let mut bad = [0u8; 32];
    bad[0] = 2;
    assert_eq!(client.verify(&reply, &bad), Err(HandshakeError::BadSignature));
}

#[test]
fn hello_bytes() {
    let h = frame_client::hello(&(1, 2, 3), &[9u8; 32]);
    assert_eq!(&h[..3], &[1, 2, 3]);
    assert_eq!(&h[3..], &[9u8; 32]);
}

#[test]
fn node_reads_hello() {
    let (step, hello) = frame_client::initial(&(0, 1, 0));
    let (_node_step, version) = frame_node::initial(&hello);
    assert_eq!(version, (0, 1, 0));
    assert_eq!(&hello[3..], &step.challenge());
}

#[test]
fn handshake_accepts_node_with_matching_key() {
    let secret = [42u8; 32];
    let (client, hello) = frame_client::initial(&(0, 1, 0));
    let (node, client_version) = frame_node::initial(&hello);
    assert_eq!(check_version(client_version), Ok(()));
    let reply = node.verify(&secret, (0, 3, 7));
    assert_eq!(&reply[..3], &[0, 3, 7]);
    assert_eq!(client.verify(&reply, &public_key(&secret)), Ok((0, 3, 7)));
}

#[test]
fn handshake_rejects_other_key_and_tampering() {
    let secret = [1u8; 32];
    let (client, hello) = frame_client::initial(&(0, 1, 0));
    let (node, _) = frame_node::initial(&hello);
    let reply = node.verify(&secret, (0, 1, 0));
    assert_eq!(client.verify(&reply, &public_of(&[2u8; 32])), Err(HandshakeError::BadSignature));

    let (client, hello) = frame_client::initial(&(0, 1, 0));
    let (node, _) = frame_node::initial(&hello);
    let mut reply = node.verify(&secret, (0, 1, 0));
    reply[10] ^= 1;
    assert_eq!(client.verify(&reply, &public_of(&secret)), Err(HandshakeError::BadSignature));
}

#[test]
fn signature_is_deterministic() {
    let (node_a, _) = frame_node::initial(&frame_client::hello(&(0, 1, 0), &[5u8; 32]));
    let (node_b, _) = frame_node::initial(&frame_client::hello(&(9, 9, 9), &[5u8; 32]));
    assert_eq!(node_a.verify(&[3u8; 32], (0, 1, 0)), node_b.verify(&[3u8; 32], (0, 1, 0)));
}

#[test]
fn challenges_are_fresh() {
    let a = generate_challenge();
    let b = generate_challenge();
    assert_ne!(a, b);
}

#[test]
fn version_check() {
    assert_eq!(VERSION, (0, 1, 0));
    assert_eq!(check_version((0, 9, 9)), Ok(()));
    assert_eq!(check_version((1, 1, 0)), Err(ConnectionError::VersionMismatch));
}

#[test]
fn ping_gets_pong() {
    let r = respond(&Packet::new_empty(PacketKind::Ping)).unwrap();
    assert_eq!(r.kind, PacketKind::Pong);
    assert!(r.payload.is_empty());
    assert!(respond(&Packet::new_empty(PacketKind::Pong)).is_none());
    assert!(respond(&Packet::new_empty(PacketKind::WriteBlock)).is_none());
}
