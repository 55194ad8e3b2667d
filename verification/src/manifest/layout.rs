//! The binary layout of a manifest, as functions on byte sequences.
//!
//! A manifest is a header followed by its blocks:
//! - header: block count (`u32`, big-endian), file-name length (`u16`,
//!   big-endian), the file name in UTF-8, the password hash (32 bytes);
//! - block: index (`u32`, big-endian), identifier (32 bytes), node count
//!   (one byte), then each node;
//! - node: address length (`u16`, big-endian), the address in UTF-8, the
//!   public key (32 bytes).

use vstd::prelude::*;
use vstd::utf8::*;
use crate::wire::{lemma_u16_be_layout, lemma_u16_be_roundtrip, lemma_u16_from_be_bytes, lemma_u16_from_be_value, lemma_u32_be_layout, lemma_u32_be_roundtrip, lemma_u32_from_be_bytes, lemma_u32_from_be_value, u16_be_bytes, u16_from_be, u32_be_bytes, u32_from_be};
use crate::manifest::{BlockModel, ManifestError, NodeModel};

verus! {

/// The header of a manifest as a mathematical value.
pub struct HeaderModel {
    pub blocks: u32,
    pub filename: Seq<char>,
    pub password_hash: Seq<u8>,
}

// ---------------------------------------------------------------------------
// Writing

/// A file name can be written when its UTF-8 takes at most 65535 bytes.
pub open spec fn filename_fits(filename: Seq<char>) -> bool {
    encode_utf8(filename).len() <= u16::MAX
}

/// The header bytes of a manifest with `blocks` blocks.
pub open spec fn header_bytes(blocks: u32, filename: Seq<char>, password_hash: Seq<u8>) -> Seq<u8> {
    u32_be_bytes(blocks) + u16_be_bytes(encode_utf8(filename).len() as u16) + encode_utf8(filename)
        + password_hash
}

/// A node can be written when its address takes at most 65535 bytes and
/// its key is 32 bytes long.
pub open spec fn node_fits(n: NodeModel) -> bool {
    &&& encode_utf8(n.addr).len() <= u16::MAX
    &&& n.public_key.len() == 32
}

/// The bytes of one node.
pub open spec fn node_bytes(n: NodeModel) -> Seq<u8> {
    u16_be_bytes(encode_utf8(n.addr).len() as u16) + encode_utf8(n.addr) + n.public_key
}

/// The bytes of a sequence of nodes, one after the other.
pub open spec fn nodes_bytes(ns: Seq<NodeModel>) -> Seq<u8>
    decreases ns.len(),
{
    if ns.len() == 0 {
        seq![]
    } else {
        nodes_bytes(ns.drop_last()) + node_bytes(ns.last())
    }
}

/// Whether some node address of `ns` takes more than 65535 bytes.
pub open spec fn some_address_too_large(ns: Seq<NodeModel>) -> bool {
    exists|i: int| 0 <= i < ns.len() && encode_utf8(#[trigger] ns[i].addr).len() > u16::MAX
}

/// The error that writing block `b` meets, if any: too many nodes first,
/// then an address that is too long.
pub open spec fn block_write_error(b: BlockModel) -> Option<ManifestError> {
    if b.nodes.len() > u8::MAX {
        Some(ManifestError::TooManyNodes)
    } else if some_address_too_large(b.nodes) {
        Some(ManifestError::NodeAddressTooLarge)
    } else {
        None
    }
}

/// A block can be written and read back: its identifier is 32 bytes, it has
/// at most 255 nodes and each node fits.
pub open spec fn block_fits(b: BlockModel) -> bool {
    &&& b.block_id.len() == 32
    &&& b.nodes.len() <= u8::MAX
    &&& forall|i: int| 0 <= i < b.nodes.len() ==> node_fits(#[trigger] b.nodes[i])
}

/// The bytes of one block.
pub open spec fn block_bytes(b: BlockModel) -> Seq<u8> {
    u32_be_bytes(b.block_idx) + b.block_id + seq![b.nodes.len() as u8] + nodes_bytes(b.nodes)
}

/// The bytes of a sequence of blocks, one after the other.
pub open spec fn blocks_bytes(bs: Seq<BlockModel>) -> Seq<u8>
    decreases bs.len(),
{
    if bs.len() == 0 {
        seq![]
    } else {
        blocks_bytes(bs.drop_last()) + block_bytes(bs.last())
    }
}

/// The complete bytes of a manifest that lists the blocks `bs`.
pub open spec fn manifest_bytes(filename: Seq<char>, password_hash: Seq<u8>, bs: Seq<BlockModel>) -> Seq<u8> {
    header_bytes(bs.len() as u32, filename, password_hash) + blocks_bytes(bs)
}

// ---------------------------------------------------------------------------
// Reading

/// The first `n` bytes of `s` and what follows them, or `UnexpectedEof`.
pub open spec fn take_bytes(s: Seq<u8>, n: int) -> Result<(Seq<u8>, Seq<u8>), ManifestError> {
    if s.len() < n {
        Err(ManifestError::UnexpectedEof)
    } else {
        Ok((s.take(n), s.skip(n)))
    }
}

/// Reads a header from the front of `s`; gives it with the bytes that follow.
pub open spec fn read_header(s: Seq<u8>) -> Result<(HeaderModel, Seq<u8>), ManifestError> {
    if s.len() < 6 {
        Err(ManifestError::UnexpectedEof)
    } else {
        let blocks = u32_from_be(s);
        let len = u16_from_be(s.skip(4)) as int;
        let r = s.skip(6);
        if r.len() < len {
            Err(ManifestError::UnexpectedEof)
        } else if !valid_utf8(r.take(len)) {
            Err(ManifestError::InvalidFilename)
        } else if r.len() < len + 32 {
            Err(ManifestError::UnexpectedEof)
        } else {
            Ok(
                (
                    HeaderModel {
                        blocks,
                        filename: decode_utf8(r.take(len)),
                        password_hash: r.subrange(len, len + 32),
                    },
                    r.skip(len + 32),
                ),
            )
        }
    }
}

/// Reads one node from the front of `s`.
pub open spec fn read_node(s: Seq<u8>) -> Result<(NodeModel, Seq<u8>), ManifestError> {
    if s.len() < 2 {
        Err(ManifestError::UnexpectedEof)
    } else {
        let len = u16_from_be(s) as int;
        let r = s.skip(2);
        if r.len() < len {
            Err(ManifestError::UnexpectedEof)
        } else if !valid_utf8(r.take(len)) {
            Err(ManifestError::InvalidNodeAddress)
        } else if r.len() < len + 32 {
            Err(ManifestError::UnexpectedEof)
        } else {
            Ok(
                (
                    NodeModel { addr: decode_utf8(r.take(len)), public_key: r.subrange(len, len + 32) },
                    r.skip(len + 32),
                ),
            )
        }
    }
}

/// Reads `n` nodes, one after the other, from the front of `s`.
pub open spec fn read_nodes(s: Seq<u8>, n: nat) -> Result<(Seq<NodeModel>, Seq<u8>), ManifestError>
    decreases n,
{
    if n == 0 {
        Ok((seq![], s))
    } else {
        match read_nodes(s, (n - 1) as nat) {
            Ok((ns, r)) => match read_node(r) {
                Ok((node, r2)) => Ok((ns.push(node), r2)),
                Err(e) => Err(e),
            },
            Err(e) => Err(e),
        }
    }
}

/// Reads one block from the front of `s`.
pub open spec fn read_block(s: Seq<u8>) -> Result<(BlockModel, Seq<u8>), ManifestError> {
    if s.len() < 37 {
        Err(ManifestError::UnexpectedEof)
    } else {
        match read_nodes(s.skip(37), s[36] as nat) {
            Ok((ns, r)) => Ok(
                (BlockModel { block_idx: u32_from_be(s), block_id: s.subrange(4, 36), nodes: ns }, r),
            ),
            Err(e) => Err(e),
        }
    }
}

/// Reads `n` blocks, one after the other, from the front of `s`.
pub open spec fn read_blocks(s: Seq<u8>, n: nat) -> Result<(Seq<BlockModel>, Seq<u8>), ManifestError>
    decreases n,
{
    if n == 0 {
        Ok((seq![], s))
    } else {
        match read_blocks(s, (n - 1) as nat) {
            Ok((bs, r)) => match read_block(r) {
                Ok((b, r2)) => Ok((bs.push(b), r2)),
                Err(e) => Err(e),
            },
            Err(e) => Err(e),
        }
    }
}

// ---------------------------------------------------------------------------
// Reading gives back what was written

/// A node reads back as written, and the bytes after it are left as they were.
pub proof fn lemma_read_node_bytes(n: NodeModel, rest: Seq<u8>)
    requires
        node_fits(n),
    ensures
        read_node(node_bytes(n) + rest) == Ok::<(NodeModel, Seq<u8>), ManifestError>((n, rest)),
{
    broadcast use encode_utf8_valid_utf8, encode_utf8_decode_utf8;

    let e = encode_utf8(n.addr);
    let len = e.len() as u16;
    let s = node_bytes(n) + rest;
    lemma_u16_be_roundtrip(len);
    assert(s.take(2) =~= u16_be_bytes(len));
    assert(u16_from_be(s) == u16_from_be(u16_be_bytes(len)));
    let r = s.skip(2);
    assert(r =~= e + n.public_key + rest);
    assert(r.take(len as int) =~= e);
    assert(r.subrange(len as int, len + 32) =~= n.public_key);
    assert(r.skip(len + 32) =~= rest);
}

/// A sequence of nodes reads back as written.
pub proof fn lemma_read_nodes_bytes(ns: Seq<NodeModel>, rest: Seq<u8>)
    requires
        forall|i: int| 0 <= i < ns.len() ==> node_fits(#[trigger] ns[i]),
    ensures
        read_nodes(nodes_bytes(ns) + rest, ns.len()) == Ok::<(Seq<NodeModel>, Seq<u8>), ManifestError>(
            (ns, rest),
        ),
    decreases ns.len(),
{
    if ns.len() > 0 {
        let init = ns.drop_last();
        let last = ns.last();
        let tail = node_bytes(last) + rest;
        assert(nodes_bytes(ns) + rest =~= nodes_bytes(init) + tail);
        assert forall|i: int| 0 <= i < init.len() implies node_fits(#[trigger] init[i]) by {
            assert(init[i] == ns[i]);
        }
        lemma_read_nodes_bytes(init, tail);
        assert(node_fits(ns[ns.len() - 1]));
        lemma_read_node_bytes(last, rest);
        assert(init.push(last) =~= ns);
    } else {
        assert(nodes_bytes(ns) + rest =~= rest);
        assert(ns =~= Seq::<NodeModel>::empty());
    }
}

/// A block reads back as written.
pub proof fn lemma_read_block_bytes(b: BlockModel, rest: Seq<u8>)
    requires
        block_fits(b),
    ensures
        read_block(block_bytes(b) + rest) == Ok::<(BlockModel, Seq<u8>), ManifestError>((b, rest)),
{
    let s = block_bytes(b) + rest;
    lemma_u32_be_roundtrip(b.block_idx);
    assert(s.take(4) =~= u32_be_bytes(b.block_idx));
    assert(u32_from_be(s) == u32_from_be(u32_be_bytes(b.block_idx)));
    assert(s.subrange(4, 36) =~= b.block_id);
    assert(s[36] == b.nodes.len() as u8);
    assert(s.skip(37) =~= nodes_bytes(b.nodes) + rest);
    lemma_read_nodes_bytes(b.nodes, rest);
}

/// A sequence of blocks reads back as written.
pub proof fn lemma_read_blocks_bytes(bs: Seq<BlockModel>, rest: Seq<u8>)
    requires
        forall|i: int| 0 <= i < bs.len() ==> block_fits(#[trigger] bs[i]),
    ensures
        read_blocks(blocks_bytes(bs) + rest, bs.len()) == Ok::<(Seq<BlockModel>, Seq<u8>), ManifestError>(
            (bs, rest),
        ),
    decreases bs.len(),
{
    if bs.len() > 0 {
        let init = bs.drop_last();
        let last = bs.last();
        let tail = block_bytes(last) + rest;
        assert(blocks_bytes(bs) + rest =~= blocks_bytes(init) + tail);
        assert forall|i: int| 0 <= i < init.len() implies block_fits(#[trigger] init[i]) by {
            assert(init[i] == bs[i]);
        }
        lemma_read_blocks_bytes(init, tail);
        assert(block_fits(bs[bs.len() - 1]));
        lemma_read_block_bytes(last, rest);
        assert(init.push(last) =~= bs);
    } else {
        assert(blocks_bytes(bs) + rest =~= rest);
        assert(bs =~= Seq::<BlockModel>::empty());
    }
}

/// A header reads back as written.
pub proof fn lemma_read_header_bytes(blocks: u32, filename: Seq<char>, password_hash: Seq<u8>, rest: Seq<u8>)
    requires
        filename_fits(filename),
        password_hash.len() == 32,
    ensures
        read_header(header_bytes(blocks, filename, password_hash) + rest)
            == Ok::<(HeaderModel, Seq<u8>), ManifestError>(
            (HeaderModel { blocks, filename, password_hash }, rest),
        ),
{
    broadcast use encode_utf8_valid_utf8, encode_utf8_decode_utf8;

    let e = encode_utf8(filename);
    let len = e.len() as u16;
    let s = header_bytes(blocks, filename, password_hash) + rest;
    lemma_u32_be_roundtrip(blocks);
    lemma_u16_be_roundtrip(len);
    assert(s.take(4) =~= u32_be_bytes(blocks));
    assert(u32_from_be(s) == u32_from_be(u32_be_bytes(blocks)));
    assert(s.skip(4).take(2) =~= u16_be_bytes(len));
    assert(u16_from_be(s.skip(4)) == u16_from_be(u16_be_bytes(len)));
    let r = s.skip(6);
    assert(r =~= e + password_hash + rest);
    assert(r.take(len as int) =~= e);
    assert(r.subrange(len as int, len + 32) =~= password_hash);
    assert(r.skip(len + 32) =~= rest);
}

/// What a read gives back of a write: the bytes of a manifest whose file
/// name and blocks can be written read back as that file name, password
/// hash, block count and those blocks in order, with nothing left over.
pub proof fn lemma_manifest_roundtrip(filename: Seq<char>, password_hash: Seq<u8>, bs: Seq<BlockModel>)
    requires
        filename_fits(filename),
        password_hash.len() == 32,
        bs.len() <= u32::MAX,
        forall|i: int| 0 <= i < bs.len() ==> block_fits(#[trigger] bs[i]),
    ensures
        read_header(manifest_bytes(filename, password_hash, bs)) == Ok::<
            (HeaderModel, Seq<u8>),
            ManifestError,
        >((HeaderModel { blocks: bs.len() as u32, filename, password_hash }, blocks_bytes(bs))),
        read_blocks(blocks_bytes(bs), bs.len()) == Ok::<(Seq<BlockModel>, Seq<u8>), ManifestError>(
            (bs, seq![]),
        ),
{
    lemma_read_header_bytes(bs.len() as u32, filename, password_hash, blocks_bytes(bs));
    lemma_read_blocks_bytes(bs, seq![]);
    assert(blocks_bytes(bs) + seq![] =~= blocks_bytes(bs));
}

// ---------------------------------------------------------------------------
// Reading takes exactly the bytes that writing what was read gives

/// A node that reads from the front of `s` takes exactly its own bytes.
pub proof fn lemma_read_node_exact(s: Seq<u8>)
    requires
        read_node(s) is Ok,
    ensures
        read_node(s) matches Ok((n, r)) && node_fits(n) && node_bytes(n) + r == s,
{
    broadcast use decode_utf8_encode_utf8;

    let len = u16_from_be(s) as int;
    let r = s.skip(2);
    lemma_u16_from_be_bytes(s);
    let a = r.take(len);
    assert(encode_utf8(decode_utf8(a)) == a);
    if let Ok((n, rest)) = read_node(s) {
        assert(node_bytes(n) + rest =~= s);
    }
}

/// `n` nodes that read from the front of `s` take exactly their own bytes.
pub proof fn lemma_read_nodes_exact(s: Seq<u8>, n: nat)
    requires
        read_nodes(s, n) is Ok,
    ensures
        read_nodes(s, n) matches Ok((ns, r)) && ns.len() == n && nodes_bytes(ns) + r == s && (forall|
            i: int,
        | 0 <= i < ns.len() ==> node_fits(#[trigger] ns[i])),
    decreases n,
{
    if n > 0 {
        lemma_read_nodes_exact(s, (n - 1) as nat);
        if let Ok((init, r)) = read_nodes(s, (n - 1) as nat) {
            lemma_read_node_exact(r);
            if let Ok((node, r2)) = read_node(r) {
                let ns = init.push(node);
                assert(ns.drop_last() =~= init);
                assert(nodes_bytes(ns) + r2 =~= nodes_bytes(init) + (node_bytes(node) + r2));
                assert forall|i: int| 0 <= i < ns.len() implies node_fits(#[trigger] ns[i]) by {
                    if i < init.len() {
                        assert(ns[i] == init[i]);
                    }
                }
            }
        }
    } else {
        assert(nodes_bytes(Seq::<NodeModel>::empty()) + s =~= s);
    }
}

/// A block that reads from the front of `s` takes exactly its own bytes.
pub proof fn lemma_read_block_exact(s: Seq<u8>)
    requires
        read_block(s) is Ok,
    ensures
        read_block(s) matches Ok((b, r)) && block_fits(b) && block_bytes(b) + r == s,
{
    lemma_u32_from_be_bytes(s);
    lemma_read_nodes_exact(s.skip(37), s[36] as nat);
    if let Ok((b, r)) = read_block(s) {
        assert(block_bytes(b) + r =~= s.take(4) + s.subrange(4, 36) + seq![s[36]] + (nodes_bytes(b.nodes) + r));
        assert(s =~= s.take(4) + s.subrange(4, 36) + seq![s[36]] + s.skip(37));
    }
}

/// `n` blocks that read from the front of `s` take exactly their own bytes.
pub proof fn lemma_read_blocks_exact(s: Seq<u8>, n: nat)
    requires
        read_blocks(s, n) is Ok,
    ensures
        read_blocks(s, n) matches Ok((bs, r)) && bs.len() == n && blocks_bytes(bs) + r == s && (forall|
            i: int,
        | 0 <= i < bs.len() ==> block_fits(#[trigger] bs[i])),
    decreases n,
{
    if n > 0 {
        lemma_read_blocks_exact(s, (n - 1) as nat);
        if let Ok((init, r)) = read_blocks(s, (n - 1) as nat) {
            lemma_read_block_exact(r);
            if let Ok((b, r2)) = read_block(r) {
                let bs = init.push(b);
                assert(bs.drop_last() =~= init);
                assert(blocks_bytes(bs) + r2 =~= blocks_bytes(init) + (block_bytes(b) + r2));
                assert forall|i: int| 0 <= i < bs.len() implies block_fits(#[trigger] bs[i]) by {
                    if i < init.len() {
                        assert(bs[i] == init[i]);
                    }
                }
            }
        }
    } else {
        assert(blocks_bytes(Seq::<BlockModel>::empty()) + s =~= s);
    }
}

/// A header that reads from the front of `s` takes exactly its own bytes.
pub proof fn lemma_read_header_exact(s: Seq<u8>)
    requires
        read_header(s) is Ok,
    ensures
        read_header(s) matches Ok((h, r)) && filename_fits(h.filename) && h.password_hash.len() == 32
            && header_bytes(h.blocks, h.filename, h.password_hash) + r == s,
{
    broadcast use decode_utf8_encode_utf8;

    lemma_u32_from_be_bytes(s);
    lemma_u16_from_be_bytes(s.skip(4));
    let len = u16_from_be(s.skip(4)) as int;
    let a = s.skip(6).take(len);
    assert(encode_utf8(decode_utf8(a)) == a);
    if let Ok((h, r)) = read_header(s) {
        assert(header_bytes(h.blocks, h.filename, h.password_hash) + r =~= s);
    }
}

/// Reading is exact: bytes that read as a manifest header followed by its
/// blocks, with nothing left over, are the bytes of that manifest.
pub proof fn lemma_manifest_exact(s: Seq<u8>)
    requires
        read_header(s) is Ok,
        read_header(s) matches Ok((h, r)) && read_blocks(r, h.blocks as nat) matches Ok((_, rest))
            && rest.len() == 0,
    ensures
        read_header(s) matches Ok((h, r)) && read_blocks(r, h.blocks as nat) matches Ok((bs, _))
            && s == manifest_bytes(h.filename, h.password_hash, bs),
{
    lemma_read_header_exact(s);
    if let Ok((h, r)) = read_header(s) {
        lemma_read_blocks_exact(r, h.blocks as nat);
        if let Ok((bs, rest)) = read_blocks(r, h.blocks as nat) {
            assert(rest =~= Seq::<u8>::empty());
            assert(blocks_bytes(bs) + rest =~= blocks_bytes(bs));
            assert(s =~= manifest_bytes(h.filename, h.password_hash, bs));
        }
    }
}

// ---------------------------------------------------------------------------
// Where each field stands

/// A header holds, in this order: the block count in four bytes, highest
/// first; the length of the file name's UTF-8 in two bytes, high first; that
/// UTF-8; and the password hash as given.
pub proof fn lemma_header_layout(blocks: u32, filename: Seq<char>, password_hash: Seq<u8>)
    requires
        filename_fits(filename),
        password_hash.len() == 32,
    ensures
        ({
            let hb = header_bytes(blocks, filename, password_hash);
            let e = encode_utf8(filename);
            let len = e.len() as int;
            &&& hb.len() == 38 + len
            &&& blocks == hb[0] * 0x100_0000 + hb[1] * 0x1_0000 + hb[2] * 256 + hb[3]
            &&& len == hb[4] * 256 + hb[5]
            &&& hb.subrange(6, 6 + len) == e
            &&& hb.subrange(6 + len, 38 + len) == password_hash
        }),
{
    let hb = header_bytes(blocks, filename, password_hash);
    let e = encode_utf8(filename);
    let len = e.len() as int;
    lemma_u32_be_layout(blocks);
    lemma_u16_be_layout(len as u16);
    assert(hb.subrange(6, 6 + len) =~= e);
    assert(hb.subrange(6 + len, 38 + len) =~= password_hash);
}

/// Reading a header succeeds exactly when the data holds the six bytes of
/// count and name length, the name as valid UTF-8 and the 32-byte hash; it
/// then gives the count (highest byte first), the decoded name and the hash
/// bytes as they stand, and leaves what follows the hash.
pub proof fn lemma_read_header_fields(s: Seq<u8>)
    ensures
        ({
            let len = s[4] * 256 + s[5];
            &&& read_header(s) is Ok <==> (s.len() >= 6 && s.len() >= 38 + len && valid_utf8(
                s.subrange(6, 6 + len),
            ))
            &&& s.len() >= 6 && s.len() >= 6 + len && !valid_utf8(s.subrange(6, 6 + len)) ==> read_header(s)
                == Err::<(HeaderModel, Seq<u8>), ManifestError>(ManifestError::InvalidFilename)
            &&& read_header(s) matches Ok((h, r)) ==> {
                &&& h.blocks == s[0] * 0x100_0000 + s[1] * 0x1_0000 + s[2] * 256 + s[3]
                &&& h.filename == decode_utf8(s.subrange(6, 6 + len))
                &&& h.password_hash == s.subrange(6 + len, 38 + len)
                &&& r == s.skip(38 + len)
            }
        }),
{
    if s.len() >= 6 {
        let len = s[4] * 256 + s[5];
        lemma_u32_from_be_value(s);
        lemma_u16_from_be_value(s.skip(4));
        let r = s.skip(6);
        if r.len() >= len {
            assert(r.take(len) =~= s.subrange(6, 6 + len));
        }
        if r.len() >= len + 32 {
            assert(r.subrange(len, len + 32) =~= s.subrange(6 + len, 38 + len));
            assert(r.skip(len + 32) =~= s.skip(38 + len));
        }
    }
}

/// A node holds, in this order: the length of its address's UTF-8 in two
/// bytes, high first; that UTF-8; and its public key as given.
pub proof fn lemma_node_layout(n: NodeModel)
    requires
        node_fits(n),
    ensures
        ({
            let nb = node_bytes(n);
            let e = encode_utf8(n.addr);
            let len = e.len() as int;
            &&& nb.len() == 34 + len
            &&& len == nb[0] * 256 + nb[1]
            &&& nb.subrange(2, 2 + len) == e
            &&& nb.subrange(2 + len, 34 + len) == n.public_key
        }),
{
    let nb = node_bytes(n);
    let e = encode_utf8(n.addr);
    let len = e.len() as int;
    lemma_u16_be_layout(len as u16);
    assert(nb.subrange(2, 2 + len) =~= e);
    assert(nb.subrange(2 + len, 34 + len) =~= n.public_key);
}

/// Reading a node succeeds exactly when the data holds the two length
/// bytes, the address as valid UTF-8 and the 32-byte key; it then gives the
/// decoded address and the key bytes as they stand, and leaves what follows.
pub proof fn lemma_read_node_fields(s: Seq<u8>)
    ensures
        ({
            let len = s[0] * 256 + s[1];
            &&& read_node(s) is Ok <==> (s.len() >= 2 && s.len() >= 34 + len && valid_utf8(
                s.subrange(2, 2 + len),
            ))
            &&& s.len() >= 2 && s.len() >= 2 + len && !valid_utf8(s.subrange(2, 2 + len)) ==> read_node(s)
                == Err::<(NodeModel, Seq<u8>), ManifestError>(ManifestError::InvalidNodeAddress)
            &&& read_node(s) matches Ok((n, r)) ==> {
                &&& n.addr == decode_utf8(s.subrange(2, 2 + len))
                &&& n.public_key == s.subrange(2 + len, 34 + len)
                &&& r == s.skip(34 + len)
            }
        }),
{
    if s.len() >= 2 {
        let len = s[0] * 256 + s[1];
        lemma_u16_from_be_value(s);
        let r = s.skip(2);
        if r.len() >= len {
            assert(r.take(len) =~= s.subrange(2, 2 + len));
        }
        if r.len() >= len + 32 {
            assert(r.subrange(len, len + 32) =~= s.subrange(2 + len, 34 + len));
            assert(r.skip(len + 32) =~= s.skip(34 + len));
        }
    }
}

/// The nodes of a block are written one after the other, in order.
pub proof fn lemma_nodes_bytes_push(ns: Seq<NodeModel>, n: NodeModel)
    ensures
        nodes_bytes(Seq::<NodeModel>::empty()) == Seq::<u8>::empty(),
        nodes_bytes(ns.push(n)) == nodes_bytes(ns) + node_bytes(n),
{
    assert(ns.push(n).drop_last() =~= ns);
}

/// A block holds, in this order: its index in four bytes, highest first;
/// its identifier as given; its node count in one byte; and its nodes.
pub proof fn lemma_block_layout(b: BlockModel)
    requires
        block_fits(b),
    ensures
        ({
            let bb = block_bytes(b);
            &&& bb.len() == 37 + nodes_bytes(b.nodes).len()
            &&& b.block_idx == bb[0] * 0x100_0000 + bb[1] * 0x1_0000 + bb[2] * 256 + bb[3]
            &&& bb.subrange(4, 36) == b.block_id
            &&& bb[36] == b.nodes.len()
            &&& bb.skip(37) == nodes_bytes(b.nodes)
        }),
{
    let bb = block_bytes(b);
    lemma_u32_be_layout(b.block_idx);
    assert(bb.subrange(4, 36) =~= b.block_id);
    assert(bb.skip(37) =~= nodes_bytes(b.nodes));
}

/// Reading a block takes its index from the first four bytes (highest
/// first), its identifier as it stands from the next 32, and as many nodes
/// as the byte after them says, read one after the other from what follows.
pub proof fn lemma_read_block_fields(s: Seq<u8>)
    ensures
        s.len() < 37 ==> read_block(s) == Err::<(BlockModel, Seq<u8>), ManifestError>(
            ManifestError::UnexpectedEof,
        ),
        read_block(s) matches Ok((b, r)) ==> {
            &&& b.block_idx == s[0] * 0x100_0000 + s[1] * 0x1_0000 + s[2] * 256 + s[3]
            &&& b.block_id == s.subrange(4, 36)
            &&& b.nodes.len() == s[36]
            &&& read_nodes(s.skip(37), s[36] as nat) == Ok::<(Seq<NodeModel>, Seq<u8>), ManifestError>(
                (b.nodes, r),
            )
        },
{
    if s.len() >= 37 {
        lemma_u32_from_be_value(s);
        lemma_read_nodes_len(s.skip(37), s[36] as nat);
    }
}

/// Reading `n` nodes gives `n` nodes.
pub proof fn lemma_read_nodes_len(s: Seq<u8>, n: nat)
    ensures
        read_nodes(s, n) matches Ok((ns, _)) ==> ns.len() == n,
    decreases n,
{
    if n > 0 {
        lemma_read_nodes_len(s, (n - 1) as nat);
    }
}

} // verus!
