use ksproto::manifest::creator::ManifestCreator;
use ksproto::manifest::parser::ManifestParser;
use ksproto::manifest::Block;

fn block(idx: u32) -> Block {
    Block { block_idx: idx, block_id: [idx as u8; 32], nodes: Vec::new() }
}

#[test]
fn creator_counts_blocks() {
    let mut c = ManifestCreator::new("file.txt", [4u8; 32]);
    c.push_block(block(0));
    c.push_block(block(1));
    let m = c.into_manifest();
    assert_eq!(m.filename, "file.txt");
    assert_eq!(m.password_hash, [4u8; 32]);
    assert_eq!(m.blocks_length, 2);
    assert_eq!(m.payload.len(), 2);
    assert_eq!(m.payload[1].block_idx, 1);
}

#[test]
fn parser_pops_last_block_first() {
    let mut c = ManifestCreator::new("f", [8u8; 32]);
    c.push_block(block(0));
    c.push_block(block(1));
    c.push_block(block(2));
    let mut p = ManifestParser::new(c.into_manifest());
    assert_eq!(p.get_password(), [8u8; 32]);
    assert_eq!(p.get_blocks_length(), 3);
    assert_eq!(p.pop_block().unwrap().block_idx, 2);
    assert_eq!(p.pop_block().unwrap().block_idx, 1);
    assert_eq!(p.pop_block().unwrap().block_idx, 0);
    assert!(p.pop_block().is_none());
    assert_eq!(p.get_blocks_length(), 3);
}
