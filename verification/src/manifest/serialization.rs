//! Writing a manifest: the header first, with a block count that is filled
//! in when the writer finishes, then one block at a time.

use vstd::prelude::*;
use vstd::utf8::encode_utf8;
use crate::manifest::layout::{
    block_bytes, block_fits, block_write_error, blocks_bytes, filename_fits, header_bytes,
    lemma_header_layout, lemma_manifest_roundtrip, manifest_bytes, nodes_bytes, read_blocks, read_header,
    some_address_too_large, HeaderModel,
};
use crate::manifest::{Block, BlockModel, ManifestError};
use crate::wire::{append_bytes, u16_to_be, u32_be_bytes, u32_to_be};

verus! {

/// The state of a manifest writer as a mathematical value.
pub struct WriterModel {
    /// How many blocks have been written.
    pub blocks: u32,
    pub manifest_name: Seq<char>,
    /// Every byte written so far; its first four hold zero until the end.
    pub written: Seq<u8>,
}

/// The bytes that a finished writer hands over: what it wrote, with the
/// block count in place of the first four bytes.
pub open spec fn finished_bytes(w: WriterModel) -> Seq<u8> {
    u32_be_bytes(w.blocks) + w.written.skip(4)
}

/// Writes a manifest into memory.
pub struct ManifestWriter {
    blocks: u32,
    manifest_name: String,
    buffer: Vec<u8>,
}

impl View for ManifestWriter {
    type V = WriterModel;

    closed spec fn view(&self) -> WriterModel {
        WriterModel { blocks: self.blocks, manifest_name: self.manifest_name@, written: self.buffer@ }
    }
}

impl ManifestWriter {
    #[verifier::type_invariant]
    spec fn inv(self) -> bool {
        self.buffer@.len() >= 4
    }

    /// Starts a manifest named `manifest_name` for the file `filename`, whose
    /// password hash is `password_hash`. Fails when the file name takes more
    /// than 65535 bytes.
    pub fn new(manifest_name: &str, filename: &str, password_hash: &[u8; 32]) -> (res: Result<
        Self,
        ManifestError,
    >)
        ensures
            !filename_fits(filename@) ==> res == Err::<Self, ManifestError>(ManifestError::FilenameTooLarge),
            filename_fits(filename@) ==> (res matches Ok(w) && w@ == (WriterModel {
                blocks: 0,
                manifest_name: manifest_name@,
                written: header_bytes(0, filename@, password_hash@),
            })),
            res matches Ok(w) ==> ({
                let len = encode_utf8(filename@).len() as int;
                &&& w@.written.len() == 38 + len
                &&& w@.written.take(4) == seq![0u8, 0u8, 0u8, 0u8]
                &&& w@.written.subrange(6, 6 + len) == encode_utf8(filename@)
                &&& w@.written.subrange(6 + len, 38 + len) == password_hash@
            }),
    {
        let filename_bytes = filename.as_bytes();
        if filename_bytes.len() > 65535 {
            return Err(ManifestError::FilenameTooLarge);
        }
        let filename_len = filename_bytes.len() as u16;
        let mut buffer: Vec<u8> = Vec::with_capacity(filename_bytes.len() + 38);
        let count = u32_to_be(0);
        append_bytes(&mut buffer, &count);
        let len_bytes = u16_to_be(filename_len);
        append_bytes(&mut buffer, &len_bytes);
        append_bytes(&mut buffer, filename_bytes);
        append_bytes(&mut buffer, password_hash);
        assert(buffer@ =~= header_bytes(0, filename@, password_hash@));
        proof {
            lemma_header_layout(0, filename@, password_hash@);
            assert(buffer@.take(4) =~= seq![0u8, 0u8, 0u8, 0u8]);
        }
        Ok(ManifestWriter { blocks: 0, manifest_name: manifest_name.to_owned(), buffer })
    }

    /// How many blocks have been written.
    pub fn blocks(&self) -> (res: u32)
        ensures
            res == self@.blocks,
    {
        self.blocks
    }

    /// The name that the manifest is written under.
    pub fn manifest_name(&self) -> (res: &str)
        ensures
            res@ == self@.manifest_name,
    {
        self.manifest_name.as_str()
    }

    /// Every byte written so far.
    pub fn written(&self) -> (res: &[u8])
        ensures
            res@ == self@.written,
    {
        self.buffer.as_slice()
    }

    /// Appends a block. Fails, writing nothing, when the block lists more
    /// than 255 nodes or a node address takes more than 65535 bytes.
    pub fn push_block(&mut self, block: &Block) -> (res: Result<(), ManifestError>)
        requires
            block_write_error(block@) is None ==> old(self)@.blocks < u32::MAX,
        ensures
            match block_write_error(block@) {
                Some(e) => res == Err::<(), ManifestError>(e) && final(self)@ == old(self)@,
                None => res == Ok::<(), ManifestError>(()) && final(self)@ == (WriterModel {
                    blocks: (old(self)@.blocks + 1) as u32,
                    written: old(self)@.written + block_bytes(block@),
                    ..old(self)@
                }),
            },
            res is Ok ==> ({
                let at = old(self)@.written.len() as int;
                &&& final(self)@.written.take(at) == old(self)@.written
                &&& final(self)@.written.subrange(at + 4, at + 36) == block.block_id@
                &&& final(self)@.written[at + 36] == block.nodes@.len()
            }),
    {
        let ghost b = block@;
        let ghost ns = b.nodes;
        if let Err(e) = check_block(block) {
            return Err(e);
        }
        let mut buffer: Vec<u8> = Vec::new();
        let idx = u32_to_be(block.block_idx);
        append_bytes(&mut buffer, &idx);
        append_bytes(&mut buffer, &block.block_id);
        buffer.push(block.nodes.len() as u8);
        let ghost prefix = buffer@;
        assert(prefix =~= u32_be_bytes(b.block_idx) + b.block_id + seq![b.nodes.len() as u8]);
        let mut i: usize = 0;
        assert(ns.take(0) =~= Seq::empty());
        while i < block.nodes.len()
            invariant
                i <= block.nodes@.len(),
                b == block@,
                ns == b.nodes,
                ns.len() == block.nodes@.len(),
                ns.len() <= 255,
                !some_address_too_large(ns),
                prefix == u32_be_bytes(b.block_idx) + b.block_id + seq![b.nodes.len() as u8],
                buffer@ == prefix + nodes_bytes(ns.take(i as int)),
            decreases block.nodes@.len() - i,
        {
            let node = &block.nodes[i];
            assert(ns[i as int] == node@);
            let addr_bytes = node.addr.as_str().as_bytes();
            assert(encode_utf8(ns[i as int].addr).len() <= u16::MAX);
            let len_bytes = u16_to_be(addr_bytes.len() as u16);
            append_bytes(&mut buffer, &len_bytes);
            append_bytes(&mut buffer, addr_bytes);
            append_bytes(&mut buffer, &node.public_key);
            assert(ns.take(i + 1).drop_last() =~= ns.take(i as int));
            assert(buffer@ =~= prefix + nodes_bytes(ns.take(i + 1)));
            i = i + 1;
        }
        assert(ns.take(i as int) =~= ns);
        assert(buffer@ =~= block_bytes(b));
        proof {
            use_type_invariant(&*self);
        }
        let ghost before = self.buffer@;
        let mut written: Vec<u8> = vec![0u8, 0u8, 0u8, 0u8];
        std::mem::swap(&mut written, &mut self.buffer);
        append_bytes(&mut written, buffer.as_slice());
        self.buffer = written;
        self.blocks = self.blocks + 1;
        proof {
            let at = before.len() as int;
            assert(self.buffer@.take(at) =~= before);
            assert(self.buffer@.subrange(at + 4, at + 36) =~= buffer@.subrange(4, 36));
            assert(buffer@.subrange(4, 36) =~= b.block_id);
            assert(self.buffer@[at + 36] == buffer@[36]);
        }
        Ok(())
    }

    /// Ends the manifest: the bytes written, with the number of blocks in
    /// place of the first four.
    pub fn finish(self) -> (res: Vec<u8>)
        ensures
            res@ == finished_bytes(self@),
    {
        proof {
            use_type_invariant(&self);
        }
        let ManifestWriter { blocks, manifest_name: _, buffer } = self;
        let mut out = buffer;
        let count = u32_to_be(blocks);
        out[0] = count[0];
        out[1] = count[1];
        out[2] = count[2];
        out[3] = count[3];
        assert(out@ =~= u32_be_bytes(blocks) + self@.written.skip(4));
        out
    }
}

/// Whether `block` can be written: too many nodes first, then a node
/// address that is too long.
pub fn check_block(block: &Block) -> (res: Result<(), ManifestError>)
    ensures
        match block_write_error(block@) {
            Some(e) => res == Err::<(), ManifestError>(e),
            None => res == Ok::<(), ManifestError>(()),
        },
{
    let ghost ns = block@.nodes;
    if block.nodes.len() > 255 {
        return Err(ManifestError::TooManyNodes);
    }
    let mut i: usize = 0;
    while i < block.nodes.len()
        invariant
            i <= block.nodes@.len(),
            ns == block@.nodes,
            ns.len() == block.nodes@.len(),
            ns.len() <= u8::MAX,
            forall|j: int| 0 <= j < i ==> encode_utf8(#[trigger] ns[j].addr).len() <= u16::MAX,
        decreases block.nodes@.len() - i,
    {
        let node = &block.nodes[i];
        assert(ns[i as int] == node@);
        if node.addr.as_str().as_bytes().len() > 65535 {
            assert(encode_utf8(ns[i as int].addr).len() > u16::MAX);
            assert(some_address_too_large(ns));
            return Err(ManifestError::NodeAddressTooLarge);
        }
        i = i + 1;
    }
    assert(!some_address_too_large(ns));
    Ok(())
}

/// Appending a block's bytes to those of a sequence of blocks gives the bytes
/// of the longer sequence.
pub proof fn lemma_blocks_bytes_push(bs: Seq<BlockModel>, b: BlockModel)
    ensures
        blocks_bytes(bs.push(b)) == blocks_bytes(bs) + block_bytes(b),
{
    assert(bs.push(b).drop_last() =~= bs);
}

/// What a read gives back of a write: once a writer has written the header
/// of `filename` and the blocks `bs`, the bytes it hands over when it
/// finishes are those of the whole manifest, and they read back as the same
/// file name, password hash, block count and blocks, in order.
pub proof fn lemma_finished_manifest_reads_back(
    w: WriterModel,
    filename: Seq<char>,
    password_hash: Seq<u8>,
    bs: Seq<BlockModel>,
)
    requires
        filename_fits(filename),
        password_hash.len() == 32,
        forall|i: int| 0 <= i < bs.len() ==> block_fits(#[trigger] bs[i]),
        w.blocks == bs.len(),
        w.written == header_bytes(0, filename, password_hash) + blocks_bytes(bs),
    ensures
        finished_bytes(w) == manifest_bytes(filename, password_hash, bs),
        read_header(finished_bytes(w)) == Ok::<(HeaderModel, Seq<u8>), ManifestError>(
            (HeaderModel { blocks: w.blocks, filename, password_hash }, blocks_bytes(bs)),
        ),
        read_blocks(blocks_bytes(bs), bs.len()) == Ok::<(Seq<BlockModel>, Seq<u8>), ManifestError>(
            (bs, seq![]),
        ),
{
    assert(finished_bytes(w) =~= manifest_bytes(filename, password_hash, bs));
    lemma_manifest_roundtrip(filename, password_hash, bs);
}

} // verus!
