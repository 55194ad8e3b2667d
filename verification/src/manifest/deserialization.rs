//! Reading a manifest from its bytes.

use vstd::prelude::*;
use vstd::utf8::decode_utf8;
use crate::manifest::layout;
use crate::manifest::layout::take_bytes;
use crate::manifest::{blocks_view, nodes_view, Block, BlockModel, ManifestError, NodeInfo, NodeModel};
use crate::text::string_from_utf8;
use crate::wire::{u16_from_be, u32_from_be};

verus! {

/// Bytes held in memory and read from the front.
pub struct ByteReader {
    data: Vec<u8>,
    pos: usize,
}

impl ByteReader {
    #[verifier::type_invariant]
    spec fn inv(self) -> bool {
        self.pos <= self.data.len()
    }

    /// A reader positioned at the first of `data`.
    pub fn new(data: Vec<u8>) -> (res: Self)
        ensures
            res@ == data@,
    {
        let res = ByteReader { data, pos: 0 };
        assert(res.data@.skip(0) =~= res.data@);
        res
    }

    /// How many bytes are left.
    pub fn remaining(&self) -> (res: usize)
        ensures
            res == self@.len(),
    {
        proof {
            use_type_invariant(self);
        }
        self.data.len() - self.pos
    }
}

impl View for ByteReader {
    type V = Seq<u8>;

    /// The bytes not read yet.
    closed spec fn view(&self) -> Seq<u8> {
        self.data@.skip(self.pos as int)
    }
}

/// `after` is what is left of `before` once some bytes from its front are read.
pub open spec fn consumed_from(before: Seq<u8>, after: Seq<u8>) -> bool {
    after.len() <= before.len() && after == before.skip(before.len() - after.len())
}

/// Reading on from what was left of a read leaves what is left of the first.
pub broadcast proof fn lemma_consumed_from_trans(a: Seq<u8>, b: Seq<u8>, c: Seq<u8>)
    requires
        #[trigger] consumed_from(a, b),
        #[trigger] consumed_from(b, c),
    ensures
        consumed_from(a, c),
{
    assert(c =~= a.skip(a.len() - c.len()));
}

/// Nothing read leaves everything.
pub proof fn lemma_consumed_from_refl(a: Seq<u8>)
    ensures
        consumed_from(a, a),
{
    assert(a =~= a.skip(0));
}

/// Reading the first `n` bytes leaves the rest.
pub proof fn lemma_consumed_from_skip(a: Seq<u8>, n: int)
    requires
        0 <= n <= a.len(),
    ensures
        consumed_from(a, a.skip(n)),
{
    assert(a.skip(n) =~= a.skip(a.len() - a.skip(n).len()));
}

/// Reads one byte.
pub fn read_u8(reader: &mut ByteReader) -> (res: Result<u8, ManifestError>)
    ensures
        consumed_from(old(reader)@, final(reader)@),
        match take_bytes(old(reader)@, 1) {
            Ok((b, r)) => res == Ok::<u8, ManifestError>(b[0]) && final(reader)@ == r,
            Err(e) => res == Err::<u8, ManifestError>(e) && final(reader)@ == old(reader)@,
        },
{
    proof {
        use_type_invariant(&*reader);
    }
    let ghost s = reader@;
    proof {
        lemma_consumed_from_refl(s);
        if s.len() >= 1 {
            lemma_consumed_from_skip(s, 1);
        }
    }
    if reader.data.len() - reader.pos < 1 {
        return Err(ManifestError::UnexpectedEof);
    }
    let b = reader.data[reader.pos];
    reader.pos = reader.pos + 1;
    assert(reader@ =~= s.skip(1));
    Ok(b)
}

/// Reads a big-endian `u16`.
pub fn read_u16_be(reader: &mut ByteReader) -> (res: Result<u16, ManifestError>)
    ensures
        consumed_from(old(reader)@, final(reader)@),
        match take_bytes(old(reader)@, 2) {
            Ok((b, r)) => res == Ok::<u16, ManifestError>(u16_from_be(b)) && final(reader)@ == r,
            Err(e) => res == Err::<u16, ManifestError>(e) && final(reader)@ == old(reader)@,
        },
{
    proof {
        use_type_invariant(&*reader);
    }
    let ghost s = reader@;
    proof {
        lemma_consumed_from_refl(s);
        if s.len() >= 2 {
            lemma_consumed_from_skip(s, 2);
        }
    }
    if reader.data.len() - reader.pos < 2 {
        return Err(ManifestError::UnexpectedEof);
    }
    let b0 = reader.data[reader.pos];
    let b1 = reader.data[reader.pos + 1];
    reader.pos = reader.pos + 2;
    assert(reader@ =~= s.skip(2));
    Ok((b0 as u16) * 256 + (b1 as u16))
}

/// Reads a big-endian `u32`.
pub fn read_u32_be(reader: &mut ByteReader) -> (res: Result<u32, ManifestError>)
    ensures
        consumed_from(old(reader)@, final(reader)@),
        match take_bytes(old(reader)@, 4) {
            Ok((b, r)) => res == Ok::<u32, ManifestError>(u32_from_be(b)) && final(reader)@ == r,
            Err(e) => res == Err::<u32, ManifestError>(e) && final(reader)@ == old(reader)@,
        },
{
    proof {
        use_type_invariant(&*reader);
    }
    let ghost s = reader@;
    proof {
        lemma_consumed_from_refl(s);
        if s.len() >= 4 {
            lemma_consumed_from_skip(s, 4);
        }
    }
    if reader.data.len() - reader.pos < 4 {
        return Err(ManifestError::UnexpectedEof);
    }
    let p = reader.pos;
    let v = (reader.data[p] as u32) * 0x100_0000 + (reader.data[p + 1] as u32) * 0x1_0000
        + (reader.data[p + 2] as u32) * 256 + (reader.data[p + 3] as u32);
    reader.pos = p + 4;
    assert(reader@ =~= s.skip(4));
    Ok(v)
}

/// Reads 32 bytes.
pub fn read_array_32(reader: &mut ByteReader) -> (res: Result<[u8; 32], ManifestError>)
    ensures
        consumed_from(old(reader)@, final(reader)@),
        match take_bytes(old(reader)@, 32) {
            Ok((b, r)) => res matches Ok(a) && a@ == b && final(reader)@ == r,
            Err(e) => res == Err::<[u8; 32], ManifestError>(e) && final(reader)@ == old(reader)@,
        },
{
    proof {
        use_type_invariant(&*reader);
    }
    let ghost s = reader@;
    proof {
        lemma_consumed_from_refl(s);
        if s.len() >= 32 {
            lemma_consumed_from_skip(s, 32);
        }
    }
    if reader.data.len() - reader.pos < 32 {
        return Err(ManifestError::UnexpectedEof);
    }
    let p = reader.pos;
    let mut a = [0u8; 32];
    let mut i: usize = 0;
    while i < 32
        invariant
            i <= 32,
            p + 32 <= reader.data.len(),
            s == reader.data@.skip(p as int),
            forall|j: int| 0 <= j < i ==> a@[j] == s[j],
        decreases 32 - i,
    {
        a[i] = reader.data[p + i];
        i = i + 1;
    }
    reader.pos = p + 32;
    assert(a@ =~= s.take(32));
    assert(reader@ =~= s.skip(32));
    Ok(a)
}

/// Reads `len` bytes.
pub fn read_exact_vec(reader: &mut ByteReader, len: usize) -> (res: Result<Vec<u8>, ManifestError>)
    ensures
        consumed_from(old(reader)@, final(reader)@),
        match take_bytes(old(reader)@, len as int) {
            Ok((b, r)) => res matches Ok(v) && v@ == b && final(reader)@ == r,
            Err(e) => res == Err::<Vec<u8>, ManifestError>(e) && final(reader)@ == old(reader)@,
        },
{
    proof {
        use_type_invariant(&*reader);
    }
    let ghost s = reader@;
    proof {
        lemma_consumed_from_refl(s);
        if s.len() >= len as int {
            lemma_consumed_from_skip(s, len as int);
        }
    }
    if reader.data.len() - reader.pos < len {
        return Err(ManifestError::UnexpectedEof);
    }
    let p = reader.pos;
    let mut v: Vec<u8> = Vec::with_capacity(len);
    let mut i: usize = 0;
    while i < len
        invariant
            i <= len,
            p + len <= reader.data.len(),
            s == reader.data@.skip(p as int),
            v@ == s.take(i as int),
        decreases len - i,
    {
        v.push(reader.data[p + i]);
        i = i + 1;
        assert(v@ =~= s.take(i as int));
    }
    reader.pos = p + len;
    assert(reader@ =~= s.skip(len as int));
    Ok(v)
}


/// Reading `i` nodes failed, so reading more of them fails the same way.
proof fn lemma_read_nodes_failure_persists(t: Seq<u8>, i: nat, n: nat)
    requires
        i <= n,
        layout::read_nodes(t, i) is Err,
    ensures
        layout::read_nodes(t, n) == layout::read_nodes(t, i),
    decreases n,
{
    if n > i {
        lemma_read_nodes_failure_persists(t, i, (n - 1) as nat);
    }
}

/// Reading `i` blocks failed, so reading more of them fails the same way.
proof fn lemma_read_blocks_failure_persists(t: Seq<u8>, i: nat, n: nat)
    requires
        i <= n,
        layout::read_blocks(t, i) is Err,
    ensures
        layout::read_blocks(t, n) == layout::read_blocks(t, i),
    decreases n,
{
    if n > i {
        lemma_read_blocks_failure_persists(t, i, (n - 1) as nat);
    }
}

/// Reads one node; on failure the bytes read before the failure stay read.
fn read_node_from(reader: &mut ByteReader) -> (res: Result<NodeInfo, ManifestError>)
    ensures
        consumed_from(old(reader)@, final(reader)@),
        match layout::read_node(old(reader)@) {
            Ok((n, r)) => res matches Ok(node) && node@ == n && final(reader)@ == r,
            Err(e) => res == Err::<NodeInfo, ManifestError>(e),
        },
{
    let ghost s = reader@;
    broadcast use lemma_consumed_from_trans;

    proof {
        lemma_consumed_from_refl(s);
    }
    let len = read_u16_be(reader)?;
    let ghost r1 = reader@;
    assert(r1 == s.skip(2));
    assert(len == u16_from_be(s));
    let addr_bytes = read_exact_vec(reader, len as usize)?;
    let ghost r2 = reader@;
    let addr = match string_from_utf8(addr_bytes) {
        Some(a) => a,
        None => return Err(ManifestError::InvalidNodeAddress),
    };
    let public_key = read_array_32(reader)?;
    assert(public_key@ =~= r1.subrange(len as int, len + 32));
    assert(reader@ =~= r1.skip(len + 32));
    Ok(NodeInfo { addr, public_key })
}

/// Reads one block; on failure the bytes read before the failure stay read.
fn read_block_from(reader: &mut ByteReader) -> (res: Result<Block, ManifestError>)
    ensures
        consumed_from(old(reader)@, final(reader)@),
        match layout::read_block(old(reader)@) {
            Ok((b, r)) => res matches Ok(blk) && blk@ == b && final(reader)@ == r,
            Err(e) => res == Err::<Block, ManifestError>(e),
        },
{
    let ghost s = reader@;
    broadcast use lemma_consumed_from_trans;

    proof {
        lemma_consumed_from_refl(s);
    }
    let block_idx = read_u32_be(reader)?;
    let block_id = read_array_32(reader)?;
    let nodes_len = read_u8(reader)?;
    assert(block_idx == u32_from_be(s));
    assert(block_id@ =~= s.subrange(4, 36));
    assert(nodes_len == s[36]);
    let ghost t = reader@;
    assert(t =~= s.skip(37));
    let mut nodes: Vec<NodeInfo> = Vec::with_capacity(nodes_len as usize);
    let mut i: u8 = 0;
    assert(nodes_view(nodes@) =~= Seq::empty());
    while i < nodes_len
        invariant
            i <= nodes_len,
            s == old(reader)@,
            s.len() >= 37,
            t == s.skip(37),
            nodes_len == s[36],
            consumed_from(s, reader@),
            layout::read_nodes(t, i as nat) == Ok::<_, ManifestError>((nodes_view(nodes@), reader@)),
        decreases nodes_len - i,
    {
        let ghost before = reader@;
        let ghost before_nodes = nodes@;
        let res = read_node_from(reader);
        proof {
            lemma_consumed_from_trans(s, before, reader@);
        }
        match res {
            Ok(node) => {
                nodes.push(node);
                assert(nodes_view(nodes@) =~= nodes_view(before_nodes).push(nodes@.last()@));
            },
            Err(e) => {
                proof {
                    assert(layout::read_nodes(t, (i + 1) as nat) == Err::<(Seq<NodeModel>, Seq<u8>), ManifestError>(e));
                    lemma_read_nodes_failure_persists(t, (i + 1) as nat, nodes_len as nat);
                }
                return Err(e);
            },
        }
        i = i + 1;
    }
    Ok(Block { block_idx, block_id, nodes })
}

/// The state of a manifest reader as a mathematical value.
pub struct ReaderModel {
    pub blocks: u32,
    pub manifest_name: Seq<char>,
    pub filename: Seq<char>,
    pub password_hash: Seq<u8>,
    /// The bytes not read yet.
    pub remaining: Seq<u8>,
    pub blocks_read: u32,
}

/// Reads a manifest: its header first, then one block at a time.
pub struct ManifestReader {
    blocks: u32,
    manifest_name: String,
    filename: String,
    password_hash: [u8; 32],
    reader: ByteReader,
    blocks_read: u32,
}

impl View for ManifestReader {
    type V = ReaderModel;

    closed spec fn view(&self) -> ReaderModel {
        ReaderModel {
            blocks: self.blocks,
            manifest_name: self.manifest_name@,
            filename: self.filename@,
            password_hash: self.password_hash@,
            remaining: self.reader@,
            blocks_read: self.blocks_read,
        }
    }
}

impl ManifestReader {
    #[verifier::type_invariant]
    spec fn inv(self) -> bool {
        self.blocks_read <= self.blocks
    }

    /// Reads the header of the manifest held in `data`, named `manifest_name`.
    pub fn new(manifest_name: &str, data: Vec<u8>) -> (res: Result<Self, ManifestError>)
        ensures
            match layout::read_header(data@) {
                Ok((h, rest)) => res matches Ok(r) && r@ == (ReaderModel {
                    blocks: h.blocks,
                    manifest_name: manifest_name@,
                    filename: h.filename,
                    password_hash: h.password_hash,
                    remaining: rest,
                    blocks_read: 0,
                }),
                Err(e) => res == Err::<Self, ManifestError>(e),
            },
            res matches Ok(r) ==> ({
                let len = data@[4] * 256 + data@[5];
                &&& r@.blocks == data@[0] * 0x100_0000 + data@[1] * 0x1_0000 + data@[2] * 256 + data@[3]
                &&& r@.filename == decode_utf8(data@.subrange(6, 6 + len))
                &&& r@.password_hash == data@.subrange(6 + len, 38 + len)
                &&& r@.remaining == data@.skip(38 + len)
            }),
    {
        let ghost s = data@;
        proof {
            layout::lemma_read_header_fields(s);
        }
        let mut reader = ByteReader::new(data);
        let blocks = read_u32_be(&mut reader)?;
        let filename_len = read_u16_be(&mut reader)?;
        let ghost r1 = reader@;
        assert(blocks == u32_from_be(s));
        assert(r1 == s.skip(4).skip(2));
        assert(filename_len == u16_from_be(s.skip(4)));
        assert(r1 =~= s.skip(6));
        let filename_bytes = read_exact_vec(&mut reader, filename_len as usize)?;
        let filename = match string_from_utf8(filename_bytes) {
            Some(f) => f,
            None => return Err(ManifestError::InvalidFilename),
        };
        let password_hash = read_array_32(&mut reader)?;
        assert(password_hash@ =~= r1.subrange(filename_len as int, filename_len + 32));
        assert(reader@ =~= r1.skip(filename_len + 32));
        Ok(ManifestReader {
            blocks,
            manifest_name: manifest_name.to_owned(),
            filename,
            password_hash,
            reader,
            blocks_read: 0,
        })
    }

    /// The number of blocks that the header announces.
    pub fn blocks(&self) -> (res: u32)
        ensures
            res == self@.blocks,
    {
        self.blocks
    }

    /// The name of the file that the manifest describes.
    pub fn filename(&self) -> (res: &str)
        ensures
            res@ == self@.filename,
    {
        self.filename.as_str()
    }

    /// The password hash that the header holds.
    pub fn password_hash(&self) -> (res: &[u8; 32])
        ensures
            res@ == self@.password_hash,
    {
        &self.password_hash
    }

    /// The name that the manifest was opened under.
    pub fn manifest_name(&self) -> (res: &str)
        ensures
            res@ == self@.manifest_name,
    {
        self.manifest_name.as_str()
    }

    /// Reads the next block: `None` once all announced blocks have been read.
    /// A failed read counts no block; the bytes it read before it failed stay
    /// read.
    pub fn read_block(&mut self) -> (res: Result<Option<Block>, ManifestError>)
        ensures
            final(self)@.blocks_read <= final(self)@.blocks,
            old(self)@.blocks_read >= old(self)@.blocks ==> res == Ok::<Option<Block>, ManifestError>(None)
                && final(self)@ == old(self)@,
            old(self)@.blocks_read < old(self)@.blocks ==> match layout::read_block(old(self)@.remaining) {
                Ok((b, r)) => res matches Ok(Some(blk)) && blk@ == b && final(self)@ == (ReaderModel {
                    remaining: r,
                    blocks_read: (old(self)@.blocks_read + 1) as u32,
                    ..old(self)@
                }),
                Err(e) => res == Err::<Option<Block>, ManifestError>(e) && final(self)@ == (ReaderModel {
                    remaining: final(self)@.remaining,
                    ..old(self)@
                }) && consumed_from(old(self)@.remaining, final(self)@.remaining),
            },
            res matches Ok(Some(blk)) ==> ({
                let s = old(self)@.remaining;
                &&& blk.block_idx == s[0] * 0x100_0000 + s[1] * 0x1_0000 + s[2] * 256 + s[3]
                &&& blk.block_id@ == s.subrange(4, 36)
                &&& blk.nodes@.len() == s[36]
            }),
    {
        proof {
            layout::lemma_read_block_fields(old(self)@.remaining);
        }
        proof {
            use_type_invariant(&*self);
            use_type_invariant(&self.reader);
        }
        if self.blocks_read >= self.blocks {
            return Ok(None);
        }
        let mut reader = ByteReader::new(Vec::new());
        std::mem::swap(&mut reader, &mut self.reader);
        let res = read_block_from(&mut reader);
        self.reader = reader;
        match res {
            Ok(b) => {
                self.blocks_read = self.blocks_read + 1;
                Ok(Some(b))
            },
            Err(e) => Err(e),
        }
    }

    /// Reads all blocks that are left.
    pub fn read_all(self) -> (res: Result<Vec<Block>, ManifestError>)
        ensures
            match layout::read_blocks(self@.remaining, (self@.blocks - self@.blocks_read) as nat) {
                Ok((bs, _)) => res matches Ok(v) && blocks_view(v@) == bs,
                Err(e) => res == Err::<Vec<Block>, ManifestError>(e),
            },
    {
        proof {
            use_type_invariant(&self);
        }
        let ghost s0 = self@.remaining;
        let ghost k0 = self@.blocks_read;
        let ghost n = (self@.blocks - self@.blocks_read) as nat;
        let mut r = self;
        let mut blocks: Vec<Block> = Vec::with_capacity(r.blocks as usize);
        assert(blocks_view(blocks@) =~= Seq::<BlockModel>::empty());
        while r.blocks_read < r.blocks
            invariant
                k0 <= r@.blocks_read <= r@.blocks,
                n == r@.blocks - k0,
                s0 == self@.remaining,
                k0 == self@.blocks_read,
                n == (self@.blocks - self@.blocks_read) as nat,
                layout::read_blocks(s0, (r@.blocks_read - k0) as nat) == Ok::<_, ManifestError>(
                    (blocks_view(blocks@), r@.remaining),
                ),
            decreases r@.blocks - r@.blocks_read,
        {
            proof {
                use_type_invariant(&r);
            }
            let ghost before = blocks@;
            match r.read_block() {
                Ok(Some(b)) => {
                    blocks.push(b);
                    assert(blocks_view(blocks@) =~= blocks_view(before).push(blocks@.last()@));
                },
                Ok(None) => {
                    return Ok(blocks);
                },
                Err(e) => {
                    proof {
                        let k = (r@.blocks_read - k0) as nat;
                        assert(layout::read_blocks(s0, k + 1) == Err::<(Seq<BlockModel>, Seq<u8>), ManifestError>(e));
                        lemma_read_blocks_failure_persists(s0, k + 1, n);
                    }
                    return Err(e);
                },
            }
        }
        Ok(blocks)
    }
}

} // verus!
