use ksproto::manifest::deserialization::{
    read_array_32, read_exact_vec, read_u16_be, read_u32_be, read_u8, ByteReader, ManifestReader,
};
use ksproto::manifest::serialization::{check_block, ManifestWriter};
use ksproto::manifest::{Block, ManifestError, NodeInfo};

fn node(addr: &str, key: u8) -> NodeInfo {
    NodeInfo { addr: addr.to_string(), public_key: [key; 32] }
}

fn block(idx: u32, id: u8, nodes: Vec<NodeInfo>) -> Block {
    Block { block_idx: idx, block_id: [id; 32], nodes }
}

#[test]
fn byte_reader_reads_big_endian_fields_in_order() {
    let mut r = ByteReader::new(vec![7, 0x12, 0x34, 0xde, 0xad, 0xbe, 0xef, 1, 2, 3]);
    assert_eq!(read_u8(&mut r), Ok(7));
    assert_eq!(read_u16_be(&mut r), Ok(0x1234));
    assert_eq!(read_u32_be(&mut r), Ok(0xdead_beef));
    assert_eq!(read_exact_vec(&mut r, 2), Ok(vec![1, 2]));
    assert_eq!(r.remaining(), 1);
    assert_eq!(read_u16_be(&mut r), Err(ManifestError::UnexpectedEof));
    assert_eq!(r.remaining(), 1);
    assert_eq!(read_u8(&mut r), Ok(3));
    assert_eq!(read_u8(&mut r), Err(ManifestError::UnexpectedEof));
}

#[test]
fn byte_reader_array_and_short_input() {
    let mut data: Vec<u8> = (0u8..40).collect();
    data.truncate(33);
    let mut r = ByteReader::new(data);
    let a = read_array_32(&mut r).unwrap();
    assert_eq!(a[0], 0);
    assert_eq!(a[31], 31);
    assert_eq!(read_array_32(&mut r), Err(ManifestError::UnexpectedEof));
    assert_eq!(read_u32_be(&mut r), Err(ManifestError::UnexpectedEof));
    assert_eq!(read_exact_vec(&mut r, 2), Err(ManifestError::UnexpectedEof));
    assert_eq!(read_exact_vec(&mut r, 1), Ok(vec![32]));
}

#[test]
fn writer_header_bytes() {
    let w = ManifestWriter::new("m.bin", "ab", &[9u8; 32]).unwrap();
    let out = w.finish();
    let mut expected = vec![0, 0, 0, 0, 0, 2, b'a', b'b'];
    expected.extend_from_slice(&[9u8; 32]);
    assert_eq!(out, expected);
}

#[test]
fn writer_block_bytes_and_count() {
    let mut w = ManifestWriter::new("m.bin", "f", &[1u8; 32]).unwrap();
    w.push_block(&block(0x0102_0304, 5, vec![node("x:1", 6)])).unwrap();
    w.push_block(&block(2, 7, vec![])).unwrap();
    let out = w.finish();
    let mut expected = vec![0, 0, 0, 2, 0, 1, b'f'];
    expected.extend_from_slice(&[1u8; 32]);
    expected.extend_from_slice(&[1, 2, 3, 4]);
    expected.extend_from_slice(&[5u8; 32]);
    expected.push(1);
    expected.extend_from_slice(&[0, 3, b'x', b':', b'1']);
    expected.extend_from_slice(&[6u8; 32]);
    expected.extend_from_slice(&[0, 0, 0, 2]);
    expected.extend_from_slice(&[7u8; 32]);
    expected.push(0);
    assert_eq!(out, expected);
}

#[test]
fn writer_rejects_long_filename() {
    let name = "a".repeat(65536);
    assert_eq!(ManifestWriter::new("m", &name, &[0u8; 32]).err(), Some(ManifestError::FilenameTooLarge));
    let name = "a".repeat(65535);
    assert!(ManifestWriter::new("m", &name, &[0u8; 32]).is_ok());
}

#[test]
fn writer_rejects_too_many_nodes_and_long_addresses() {
    let mut w = ManifestWriter::new("m", "f", &[0u8; 32]).unwrap();
    let many: Vec<NodeInfo> = (0..256).map(|_| node("n", 0)).collect();
    assert_eq!(w.push_block(&block(0, 0, many)), Err(ManifestError::TooManyNodes));
    let long = vec![node("ok", 0), node(&"z".repeat(65536), 0)];
    assert_eq!(w.push_block(&block(0, 0, long)), Err(ManifestError::NodeAddressTooLarge));
    let fine: Vec<NodeInfo> = (0..255).map(|_| node("n", 0)).collect();
    assert_eq!(w.push_block(&block(0, 0, fine)), Ok(()));
    let out = w.finish();
    assert_eq!(&out[0..4], &[0, 0, 0, 1]);
}

#[test]
fn manifest_roundtrip() {
    let mut w = ManifestWriter::new("m.bin", "photo-é.png", &[3u8; 32]).unwrap();
    w.push_block(&block(0, 10, vec![node("10.0.0.1:4000", 1), node("ноды:1", 2)])).unwrap();
    w.push_block(&block(1, 11, vec![])).unwrap();
    w.push_block(&block(2, 12, vec![node("h", 3)])).unwrap();
    let bytes = w.finish();

    let mut r = ManifestReader::new("m.bin", bytes.clone()).unwrap();
    assert_eq!(r.blocks(), 3);
    assert_eq!(r.filename(), "photo-é.png");
    assert_eq!(r.password_hash(), &[3u8; 32]);
    assert_eq!(r.manifest_name(), "m.bin");
    let b0 = r.read_block().unwrap().unwrap();
    assert_eq!(b0.block_idx, 0);
    assert_eq!(b0.block_id, [10u8; 32]);
    assert_eq!(b0.nodes.len(), 2);
    assert_eq!(b0.nodes[0].addr, "10.0.0.1:4000");
    assert_eq!(b0.nodes[1].addr, "ноды:1");
    assert_eq!(b0.nodes[1].public_key, [2u8; 32]);
    let b1 = r.read_block().unwrap().unwrap();
    assert_eq!(b1.block_idx, 1);
    assert!(b1.nodes.is_empty());
    let b2 = r.read_block().unwrap().unwrap();
    assert_eq!(b2.nodes[0].addr, "h");
    assert!(r.read_block().unwrap().is_none());
    assert!(r.read_block().unwrap().is_none());

    let all = ManifestReader::new("m.bin", bytes).unwrap().read_all().unwrap();
    assert_eq!(all.len(), 3);
    assert_eq!(all[2].block_id, [12u8; 32]);
}

#[test]
fn reader_errors() {
    assert_eq!(ManifestReader::new("m", vec![0, 0, 0]).err(), Some(ManifestError::UnexpectedEof));
    assert_eq!(ManifestReader::new("m", vec![0, 0, 0, 1, 0, 2, b'a']).err(), Some(ManifestError::UnexpectedEof));
    let mut bad = vec![0, 0, 0, 1, 0, 1, 0xff];
    bad.extend_from_slice(&[0u8; 32]);
    assert_eq!(ManifestReader::new("m", bad).err(), Some(ManifestError::InvalidFilename));
    let mut short_hash = vec![0, 0, 0, 1, 0, 1, b'a'];
    short_hash.extend_from_slice(&[0u8; 31]);
    assert_eq!(ManifestReader::new("m", short_hash).err(), Some(ManifestError::UnexpectedEof));

    let mut w = ManifestWriter::new("m", "a", &[0u8; 32]).unwrap();
    w.push_block(&block(0, 0, vec![node("ab", 1)])).unwrap();
    let mut bytes = w.finish();
    // Corrupt the node address, which starts after the header (39 bytes),
    // the block index and id (36 bytes), the node count and the length.
    let addr_at = 39 + 36 + 1 + 2;
    bytes[addr_at] = 0xc3;
    bytes[addr_at + 1] = 0x28;
    let mut r = ManifestReader::new("m", bytes.clone()).unwrap();
    assert_eq!(r.read_block().err(), Some(ManifestError::InvalidNodeAddress));
    // The failed read consumed the block up to the address; what follows is
    // the 32-byte key, too short for another block.
    assert_eq!(r.read_block().err(), Some(ManifestError::UnexpectedEof));
    assert_eq!(ManifestReader::new("m", bytes).unwrap().read_all().err(), Some(ManifestError::InvalidNodeAddress));

    let mut w = ManifestWriter::new("m", "a", &[0u8; 32]).unwrap();
    w.push_block(&block(0, 0, vec![node("ab", 1)])).unwrap();
    let mut bytes = w.finish();
    bytes.pop();
    let mut r = ManifestReader::new("m", bytes).unwrap();
    assert_eq!(r.read_block().err(), Some(ManifestError::UnexpectedEof));
}

#[test]
fn reader_stops_at_announced_count() {
    let mut w = ManifestWriter::new("m", "a", &[0u8; 32]).unwrap();
    w.push_block(&block(4, 1, vec![])).unwrap();
    let mut bytes = w.finish();
    bytes[3] = 0;
    let mut r = ManifestReader::new("m", bytes).unwrap();
    assert_eq!(r.blocks(), 0);
    assert!(r.read_block().unwrap().is_none());
}

#[test]
fn check_block_matches_push_errors() {
    let many: Vec<NodeInfo> = (0..256).map(|_| node("n", 0)).collect();
    assert_eq!(check_block(&block(0, 0, many)), Err(ManifestError::TooManyNodes));
    let long = vec![node(&"z".repeat(65536), 0)];
    assert_eq!(check_block(&block(0, 0, long)), Err(ManifestError::NodeAddressTooLarge));
    assert_eq!(check_block(&block(0, 0, vec![node(&"z".repeat(65535), 0)])), Ok(()));
}

#[test]
fn written_grows_by_block_bytes() {
    let mut w = ManifestWriter::new("m", "f", &[0u8; 32]).unwrap();
    assert_eq!(w.written().len(), 4 + 2 + 1 + 32);
    assert_eq!(w.blocks(), 0);
    w.push_block(&block(1, 1, vec![node("ab", 2)])).unwrap();
    assert_eq!(w.written().len(), 39 + 4 + 32 + 1 + 2 + 2 + 32);
    assert_eq!(w.blocks(), 1);
    assert_eq!(w.manifest_name(), "m");
    assert_eq!(&w.written()[0..4], &[0, 0, 0, 0]);
}
