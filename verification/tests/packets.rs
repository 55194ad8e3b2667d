use bytes::Bytes;
use ksproto::packets::types::{Packet, PacketKind, MAX_PAYLOAD_LENGTH};
use ksproto::packets::{decode_header, encode_packet, FrameError, HEADER_LENGTH};

#[test]
fn kind_codes() {
    let kinds = [
        (PacketKind::Ping, 1u8),
        (PacketKind::Pong, 2),
        (PacketKind::Okay, 3),
        (PacketKind::Error, 4),
        (PacketKind::GetSpace, 6),
        (PacketKind::WriteBlock, 7),
        (PacketKind::ReadBlock, 8),
    ];
    for (k, c) in kinds {
        assert_eq!(k.code(), c);
        assert_eq!(PacketKind::from_code(c), Some(k));
    }
    assert_eq!(PacketKind::from_code(0), None);
    assert_eq!(PacketKind::from_code(5), None);
    assert_eq!(PacketKind::from_code(9), None);
}

#[test]
fn constructors() {
    let p = Packet::new(PacketKind::WriteBlock, Bytes::from(vec![1, 2]));
    assert_eq!(p.identity, [0u8; 32]);
    assert_eq!(&p.payload[..], &[1, 2]);
    let p = Packet::new_with_identity(PacketKind::ReadBlock, [5u8; 32], Bytes::from(vec![3]));
    assert_eq!(p.identity, [5u8; 32]);
    let p = Packet::new_empty(PacketKind::Ping);
    assert!(p.payload.is_empty());
    assert_eq!(p.identity, [0u8; 32]);
    let p = Packet::new_empty_with_identity(PacketKind::Okay, [6u8; 32]);
    assert_eq!(p.kind, PacketKind::Okay);
    assert_eq!(p.identity, [6u8; 32]);
    assert!(p.payload.is_empty());
}

#[test]
fn encode_exact_bytes() {
    let p = Packet::new_with_identity(PacketKind::GetSpace, [2u8; 32], Bytes::from(vec![9, 8, 7]));
    let v = encode_packet(&p).unwrap();
    let mut expected = vec![6u8];
    expected.extend_from_slice(&[2u8; 32]);
    expected.extend_from_slice(&[0, 0, 0, 3, 9, 8, 7]);
    assert_eq!(v, expected);
}

#[test]
fn encode_rejects_large_payload() {
    let p = Packet::new(PacketKind::WriteBlock, Bytes::from(vec![0u8; MAX_PAYLOAD_LENGTH + 1]));
    assert_eq!(encode_packet(&p), Err(FrameError::PayloadTooLarge));
    let p = Packet::new(PacketKind::WriteBlock, Bytes::from(vec![0u8; MAX_PAYLOAD_LENGTH]));
    assert_eq!(encode_packet(&p).unwrap().len(), HEADER_LENGTH + MAX_PAYLOAD_LENGTH);
}

#[test]
fn frame_roundtrip() {
    let p = Packet::new_with_identity(PacketKind::ReadBlock, [7u8; 32], Bytes::from(vec![1, 2, 3, 4]));
    let v = encode_packet(&p).unwrap();
    let header: [u8; HEADER_LENGTH] = v[..HEADER_LENGTH].try_into().unwrap();
    let h = decode_header(&header).unwrap();
    assert_eq!(h.kind, PacketKind::ReadBlock);
    assert_eq!(h.identity, [7u8; 32]);
    assert_eq!(h.length, 4);
    let q = h.into_packet(v[HEADER_LENGTH..].to_vec());
    assert_eq!(q.kind, p.kind);
    assert_eq!(q.identity, p.identity);
    assert_eq!(q.payload, p.payload);
}

#[test]
fn decode_header_errors() {
    let mut header = [0u8; HEADER_LENGTH];
    header[0] = 5;
    assert_eq!(decode_header(&header).err(), Some(FrameError::InvalidKind));
    header[0] = 1;
    header[33..37].copy_from_slice(&((MAX_PAYLOAD_LENGTH as u32) + 1).to_be_bytes());
    assert_eq!(decode_header(&header).err(), Some(FrameError::PayloadTooLarge));
    header[33..37].copy_from_slice(&(MAX_PAYLOAD_LENGTH as u32).to_be_bytes());
    assert_eq!(decode_header(&header).unwrap().length, MAX_PAYLOAD_LENGTH);
}
