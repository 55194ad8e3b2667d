//! Taking the blocks of a manifest that is already in memory, last first.

use vstd::prelude::*;
use crate::manifest::{Block, BlockModel, Manifest, ManifestModel};
use crate::manifest::creator::manifest_pushed;

verus! {

/// The manifest `m` with its last block taken off, and that block; `None`
/// and `m` itself when it has no blocks. The block count is left as it was.
pub open spec fn manifest_popped(m: ManifestModel) -> (Option<BlockModel>, ManifestModel) {
    if m.payload.len() == 0 {
        (None, m)
    } else {
        (Some(m.payload.last()), ManifestModel { payload: m.payload.drop_last(), ..m })
    }
}

/// Hands out the blocks of a manifest.
pub struct ManifestParser {
    manifest: Manifest,
}

impl View for ManifestParser {
    type V = ManifestModel;

    closed spec fn view(&self) -> ManifestModel {
        self.manifest@
    }
}

impl ManifestParser {
    /// A parser over `manifest`.
    pub fn new(manifest: Manifest) -> (res: Self)
        ensures
            res@ == manifest@,
    {
        ManifestParser { manifest }
    }

    /// The password hash of the manifest.
    pub fn get_password(&self) -> (res: [u8; 32])
        ensures
            res@ == self@.password_hash,
    {
        self.manifest.password_hash
    }

    /// The block count that the manifest records.
    pub fn get_blocks_length(&self) -> (res: u32)
        ensures
            res == self@.blocks_length,
    {
        self.manifest.blocks_length
    }

    /// Takes the last block off the manifest.
    pub fn pop_block(&mut self) -> (res: Option<Block>)
        ensures
            (match res {
                Some(b) => Some(b@),
                None => None,
            }, final(self)@) == manifest_popped(old(self)@),
    {
        let ghost before = self.manifest.payload@;
        let res = self.manifest.payload.pop();
        proof {
            if before.len() > 0 {
                assert(crate::manifest::blocks_view(self.manifest.payload@) =~= crate::manifest::blocks_view(
                    before,
                ).drop_last());
            }
        }
        res
    }
}

/// The last block added to a manifest is the first one taken off it, and
/// taking it off leaves the blocks as they were before it was added (the
/// block count keeps the one it gained).
pub proof fn lemma_pop_returns_last_pushed(m: ManifestModel, b: BlockModel)
    ensures
        manifest_popped(manifest_pushed(m, b)) == (
            Some(b),
            ManifestModel { blocks_length: (m.blocks_length + 1) as u32, ..m },
        ),
{
    assert(m.payload.push(b).drop_last() =~= m.payload);
}

} // verus!
